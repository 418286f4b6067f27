//! Binary messages between server and client. All multi-byte integers are
//! little-endian; each message is one binary WebSocket frame.

use crate::wire;
use vstd::prelude::*;
use vstd::slice::{slice_subrange, slice_to_vec};

verus! {

// Server to client.
pub const MSG_VIDEO_FRAME: u8 = 0x01;
pub const MSG_SERVER_INFO: u8 = 0x02;
pub const MSG_CURSOR_INFO: u8 = 0x03;
pub const MSG_MONITOR_LIST: u8 = 0x04;
pub const MSG_AUDIO_DATA: u8 = 0x05;
pub const MSG_AUDIO_DEVICE_LIST: u8 = 0x06;
pub const MSG_PONG: u8 = 0x07;
pub const MSG_ENCODER_LIST: u8 = 0x08;
pub const MSG_PROFILE_LIST: u8 = 0x09;

// Client to server.
pub const MSG_MOUSE_MOVE: u8 = 0x10;
pub const MSG_MOUSE_BUTTON: u8 = 0x11;
pub const MSG_MOUSE_SCROLL: u8 = 0x12;
pub const MSG_KEY_EVENT: u8 = 0x13;
pub const MSG_CLIENT_READY: u8 = 0x14;
pub const MSG_SELECT_MONITOR: u8 = 0x15;
pub const MSG_SELECT_AUDIO: u8 = 0x16;
pub const MSG_KEY_SCANCODE: u8 = 0x17;
pub const MSG_SET_KEYBOARD_LAYOUT: u8 = 0x18;
pub const MSG_PING: u8 = 0x19;
pub const MSG_SELECT_ENCODER: u8 = 0x1A;
pub const MSG_SELECT_PROFILE: u8 = 0x1B;

/// One display of the server.
#[derive(Debug, Clone, Copy, PartialEq, Eq, Structural)]
pub struct MonitorInfo {
    /// Zero-based monitor index.
    pub index: u8,
    /// Horizontal offset in the virtual desktop.
    pub x: i16,
    /// Vertical offset in the virtual desktop.
    pub y: i16,
    /// Width in pixels.
    pub width: u16,
    /// Height in pixels.
    pub height: u16,
    /// True if this is the primary monitor.
    pub primary: bool,
}

/// One encoder that works on the server.
#[derive(Debug, Clone, PartialEq, Eq)]
pub struct EncoderInfo {
    /// Index to use in [`ClientMessage::SelectEncoder`].
    pub index: u8,
    /// FFmpeg encoder name, such as `h264_amf`.
    pub name: String,
    /// Codec family: 0 is H.264, 1 is HEVC, 2 is AV1.
    pub codec: u8,
    /// Hardware vendor: 0 is AMD, 1 is NVIDIA, 2 is Intel, 3 is Microsoft,
    /// 4 is software, 5 is anything else.
    pub hw_vendor: u8,
    /// True if this encoder is running.
    pub active: bool,
}

/// One named encoder profile of the server.
#[derive(Debug, Clone, PartialEq, Eq)]
pub struct ProfileInfo {
    pub index: u8,
    /// Profile name, such as `gaming`.
    pub name: String,
    /// True if this profile is in use.
    pub active: bool,
}

/// One audio capture device of the server.
#[derive(Debug, Clone)]
pub struct AudioDeviceInfo {
    /// Zero-based device index.
    pub index: u8,
    /// Human-readable device name.
    pub name: String,
}

/// A message from the server.
#[derive(Debug, Clone)]
pub enum ServerMessage {
    /// One encoded access unit.
    VideoFrame {
        /// Microseconds on the server's clock.
        timestamp_us: u64,
        /// True if the frame can be decoded on its own.
        is_keyframe: bool,
        data: Vec<u8>,
    },
    /// Desktop resolution, target frame rate and codec (0 is H.264, 1 is
    /// HEVC, 2 is AV1).
    ServerInfo { width: u16, height: u16, fps: u8, codec: u8 },
    /// Where the server's cursor is.
    CursorInfo { x: u16, y: u16, visible: bool },
    /// The monitors that can be streamed.
    MonitorList { monitors: Vec<MonitorInfo> },
    /// Interleaved stereo samples, 32-bit float at 48 kHz.
    AudioData { data: Vec<u8> },
    /// The audio devices that can be captured.
    AudioDeviceList { devices: Vec<AudioDeviceInfo> },
    /// Reply to [`ClientMessage::Ping`] with the client's own timestamp.
    Pong { client_ts_us: u64 },
    /// The encoders that work on the server.
    EncoderList { encoders: Vec<EncoderInfo> },
    /// The encoder profiles of the server.
    ProfileList { profiles: Vec<ProfileInfo> },
}

/// A message from the client.
#[derive(Debug, Clone, Copy, PartialEq, Eq, Structural)]
pub enum ClientMessage {
    MouseMove { x: u16, y: u16 },
    MouseButton { button: u8, pressed: bool, x: u16, y: u16 },
    MouseScroll { delta_x: i16, delta_y: i16 },
    /// A key by its Windows virtual-key code.
    KeyEvent { key_code: u16, pressed: bool },
    /// A key by its PS/2 set 1 scancode; `extended` stands for the `E0` prefix.
    KeyScancode { scancode: u16, extended: bool, pressed: bool },
    ClientReady,
    /// Stream the monitor with this index.
    SelectMonitor { index: u8 },
    /// Capture the audio device with this index; 255 turns audio off.
    SelectAudio { index: u8 },
    /// Read scancodes with this Windows keyboard layout.
    SetKeyboardLayout { klid: u32 },
    /// Ask for a [`ServerMessage::Pong`] with the same timestamp.
    Ping { client_ts_us: u64 },
    /// Switch to this entry of the last encoder list.
    SelectEncoder { index: u8 },
    /// Switch to this entry of the last profile list.
    SelectProfile { index: u8 },
}

// ── Models ─────────────────────────────────────────────────────────

/// What an [`EncoderInfo`] says.
pub struct EncoderModel {
    pub index: u8,
    pub name: Seq<char>,
    pub codec: u8,
    pub hw_vendor: u8,
    pub active: bool,
}

/// What a [`ProfileInfo`] says.
pub struct ProfileModel {
    pub index: u8,
    pub name: Seq<char>,
    pub active: bool,
}

/// What an [`AudioDeviceInfo`] says.
pub struct DeviceModel {
    pub index: u8,
    pub name: Seq<char>,
}

/// What a [`ServerMessage`] says.
pub enum ServerModel {
    VideoFrame { timestamp_us: u64, is_keyframe: bool, data: Seq<u8> },
    ServerInfo { width: u16, height: u16, fps: u8, codec: u8 },
    CursorInfo { x: u16, y: u16, visible: bool },
    MonitorList { monitors: Seq<MonitorInfo> },
    AudioData { data: Seq<u8> },
    AudioDeviceList { devices: Seq<DeviceModel> },
    Pong { client_ts_us: u64 },
    EncoderList { encoders: Seq<EncoderModel> },
    ProfileList { profiles: Seq<ProfileModel> },
}

impl View for EncoderInfo {
    type V = EncoderModel;

    open spec fn view(&self) -> EncoderModel {
        EncoderModel {
            index: self.index,
            name: self.name@,
            codec: self.codec,
            hw_vendor: self.hw_vendor,
            active: self.active,
        }
    }
}

impl View for ProfileInfo {
    type V = ProfileModel;

    open spec fn view(&self) -> ProfileModel {
        ProfileModel { index: self.index, name: self.name@, active: self.active }
    }
}

impl View for AudioDeviceInfo {
    type V = DeviceModel;

    open spec fn view(&self) -> DeviceModel {
        DeviceModel { index: self.index, name: self.name@ }
    }
}

pub open spec fn device_models(v: Seq<AudioDeviceInfo>) -> Seq<DeviceModel> {
    Seq::new(v.len(), |i: int| v[i]@)
}

pub open spec fn encoder_models(v: Seq<EncoderInfo>) -> Seq<EncoderModel> {
    Seq::new(v.len(), |i: int| v[i]@)
}

pub open spec fn profile_models(v: Seq<ProfileInfo>) -> Seq<ProfileModel> {
    Seq::new(v.len(), |i: int| v[i]@)
}

impl View for ServerMessage {
    type V = ServerModel;

    open spec fn view(&self) -> ServerModel {
        match self {
            ServerMessage::VideoFrame { timestamp_us, is_keyframe, data } =>
                ServerModel::VideoFrame {
                    timestamp_us: *timestamp_us,
                    is_keyframe: *is_keyframe,
                    data: data@,
                },
            ServerMessage::ServerInfo { width, height, fps, codec } => ServerModel::ServerInfo {
                width: *width,
                height: *height,
                fps: *fps,
                codec: *codec,
            },
            ServerMessage::CursorInfo { x, y, visible } => ServerModel::CursorInfo {
                x: *x,
                y: *y,
                visible: *visible,
            },
            ServerMessage::MonitorList { monitors } => ServerModel::MonitorList {
                monitors: monitors@,
            },
            ServerMessage::AudioData { data } => ServerModel::AudioData { data: data@ },
            ServerMessage::AudioDeviceList { devices } => ServerModel::AudioDeviceList {
                devices: device_models(devices@),
            },
            ServerMessage::Pong { client_ts_us } => ServerModel::Pong {
                client_ts_us: *client_ts_us,
            },
            ServerMessage::EncoderList { encoders } => ServerModel::EncoderList {
                encoders: encoder_models(encoders@),
            },
            ServerMessage::ProfileList { profiles } => ServerModel::ProfileList {
                profiles: profile_models(profiles@),
            },
        }
    }
}

// ── Wire format ────────────────────────────────────────────────────

/// The ten bytes of a monitor.
pub open spec fn monitor_bytes(m: MonitorInfo) -> Seq<u8> {
    seq![m.index] + wire::le16(wire::twos_complement(m.x)) + wire::le16(
        wire::twos_complement(m.y),
    ) + wire::le16(m.width) + wire::le16(m.height) + seq![wire::flag(m.primary)]
}

/// The bytes of a list of monitors, ten for each.
pub open spec fn monitors_bytes(ms: Seq<MonitorInfo>) -> Seq<u8> {
    Seq::new(10 * ms.len(), |j: int| monitor_bytes(ms[j / 10])[j % 10])
}

/// The monitor in the ten bytes at `at`.
pub open spec fn monitor_at(d: Seq<u8>, at: int) -> MonitorInfo {
    MonitorInfo {
        index: d[at],
        x: wire::i16_at(d, at + 1),
        y: wire::i16_at(d, at + 3),
        width: wire::u16_at(d, at + 5),
        height: wire::u16_at(d, at + 7),
        primary: d[at + 9] != 0,
    }
}

pub open spec fn device_record(d: DeviceModel) -> wire::Record {
    wire::Record { head: seq![d.index], name: d.name }
}

pub open spec fn record_device(r: wire::Record) -> DeviceModel {
    DeviceModel { index: r.head[0], name: r.name }
}

pub open spec fn encoder_record(e: EncoderModel) -> wire::Record {
    wire::Record {
        head: seq![e.index, e.codec, e.hw_vendor, wire::flag(e.active)],
        name: e.name,
    }
}

pub open spec fn record_encoder(r: wire::Record) -> EncoderModel {
    EncoderModel {
        index: r.head[0],
        name: r.name,
        codec: r.head[1],
        hw_vendor: r.head[2],
        active: r.head[3] != 0,
    }
}

pub open spec fn profile_record(p: ProfileModel) -> wire::Record {
    wire::Record { head: seq![p.index, wire::flag(p.active)], name: p.name }
}

pub open spec fn record_profile(r: wire::Record) -> ProfileModel {
    ProfileModel { index: r.head[0], name: r.name, active: r.head[1] != 0 }
}

pub open spec fn device_records(v: Seq<DeviceModel>) -> Seq<wire::Record> {
    Seq::new(v.len(), |i: int| device_record(v[i]))
}

pub open spec fn encoder_records(v: Seq<EncoderModel>) -> Seq<wire::Record> {
    Seq::new(v.len(), |i: int| encoder_record(v[i]))
}

pub open spec fn profile_records(v: Seq<ProfileModel>) -> Seq<wire::Record> {
    Seq::new(v.len(), |i: int| profile_record(v[i]))
}

/// The count byte of a list: its length, cut to eight bits.
pub open spec fn count_byte(len: nat) -> u8 {
    (len % 256) as u8
}

/// The bytes of a server message.
pub open spec fn server_bytes(m: ServerModel) -> Seq<u8> {
    match m {
        ServerModel::VideoFrame { timestamp_us, is_keyframe, data } => seq![MSG_VIDEO_FRAME]
            + wire::le64(timestamp_us) + seq![wire::flag(is_keyframe)] + data,
        ServerModel::ServerInfo { width, height, fps, codec } => seq![MSG_SERVER_INFO]
            + wire::le16(width) + wire::le16(height) + seq![fps, codec],
        ServerModel::CursorInfo { x, y, visible } => seq![MSG_CURSOR_INFO] + wire::le16(x)
            + wire::le16(y) + seq![wire::flag(visible)],
        ServerModel::MonitorList { monitors } => seq![MSG_MONITOR_LIST, count_byte(monitors.len())]
            + monitors_bytes(monitors),
        ServerModel::AudioData { data } => seq![MSG_AUDIO_DATA] + data,
        ServerModel::AudioDeviceList { devices } => seq![
            MSG_AUDIO_DEVICE_LIST,
            count_byte(devices.len()),
        ] + wire::records_bytes(device_records(devices)),
        ServerModel::Pong { client_ts_us } => seq![MSG_PONG] + wire::le64(client_ts_us),
        ServerModel::EncoderList { encoders } => seq![MSG_ENCODER_LIST, count_byte(encoders.len())]
            + wire::records_bytes(encoder_records(encoders)),
        ServerModel::ProfileList { profiles } => seq![MSG_PROFILE_LIST, count_byte(profiles.len())]
            + wire::records_bytes(profile_records(profiles)),
    }
}

/// The devices of a device list.
pub open spec fn parse_devices(d: Seq<u8>) -> Option<Seq<DeviceModel>> {
    match wire::parse_records(d, 2, 1, d[1] as nat) {
        Some(rs) => Some(Seq::new(rs.len(), |i: int| record_device(rs[i]))),
        None => None,
    }
}

/// The encoders of an encoder list.
pub open spec fn parse_encoders(d: Seq<u8>) -> Option<Seq<EncoderModel>> {
    match wire::parse_records(d, 2, 4, d[1] as nat) {
        Some(rs) => Some(Seq::new(rs.len(), |i: int| record_encoder(rs[i]))),
        None => None,
    }
}

/// The profiles of a profile list.
pub open spec fn parse_profiles(d: Seq<u8>) -> Option<Seq<ProfileModel>> {
    match wire::parse_records(d, 2, 2, d[1] as nat) {
        Some(rs) => Some(Seq::new(rs.len(), |i: int| record_profile(rs[i]))),
        None => None,
    }
}

/// The server message that the bytes `d` spell: `None` for an empty or cut
/// message or an unknown tag. Bytes behind a complete message are ignored.
pub open spec fn parse_server(d: Seq<u8>) -> Option<ServerModel> {
    if d.len() == 0 {
        None
    } else if d[0] == MSG_VIDEO_FRAME && d.len() >= 10 {
        Some(
            ServerModel::VideoFrame {
                timestamp_us: wire::u64_at(d, 1),
                is_keyframe: d[9] != 0,
                data: d.subrange(10, d.len() as int),
            },
        )
    } else if d[0] == MSG_SERVER_INFO && d.len() >= 6 {
        Some(
            ServerModel::ServerInfo {
                width: wire::u16_at(d, 1),
                height: wire::u16_at(d, 3),
                fps: d[5],
                codec: if d.len() > 6 {
                    d[6]
                } else {
                    0
                },
            },
        )
    } else if d[0] == MSG_CURSOR_INFO && d.len() >= 6 {
        Some(
            ServerModel::CursorInfo {
                x: wire::u16_at(d, 1),
                y: wire::u16_at(d, 3),
                visible: d[5] != 0,
            },
        )
    } else if d[0] == MSG_MONITOR_LIST && d.len() >= 2 && d.len() >= 2 + 10 * d[1] {
        Some(
            ServerModel::MonitorList {
                monitors: Seq::new(d[1] as nat, |i: int| monitor_at(d, 2 + 10 * i)),
            },
        )
    } else if d[0] == MSG_AUDIO_DATA && d.len() > 1 {
        Some(ServerModel::AudioData { data: d.subrange(1, d.len() as int) })
    } else if d[0] == MSG_AUDIO_DEVICE_LIST && d.len() >= 2 {
        match parse_devices(d) {
            Some(devices) => Some(ServerModel::AudioDeviceList { devices }),
            None => None,
        }
    } else if d[0] == MSG_PONG && d.len() >= 9 {
        Some(ServerModel::Pong { client_ts_us: wire::u64_at(d, 1) })
    } else if d[0] == MSG_ENCODER_LIST && d.len() >= 2 {
        match parse_encoders(d) {
            Some(encoders) => Some(ServerModel::EncoderList { encoders }),
            None => None,
        }
    } else if d[0] == MSG_PROFILE_LIST && d.len() >= 2 {
        match parse_profiles(d) {
            Some(profiles) => Some(ServerModel::ProfileList { profiles }),
            None => None,
        }
    } else {
        None
    }
}

/// The bytes of a client message.
pub open spec fn client_bytes(m: ClientMessage) -> Seq<u8> {
    match m {
        ClientMessage::MouseMove { x, y } => seq![MSG_MOUSE_MOVE] + wire::le16(x) + wire::le16(y),
        ClientMessage::MouseButton { button, pressed, x, y } => seq![
            MSG_MOUSE_BUTTON,
            button,
            wire::flag(pressed),
        ] + wire::le16(x) + wire::le16(y),
        ClientMessage::MouseScroll { delta_x, delta_y } => seq![MSG_MOUSE_SCROLL] + wire::le16(
            wire::twos_complement(delta_x),
        ) + wire::le16(wire::twos_complement(delta_y)),
        ClientMessage::KeyEvent { key_code, pressed } => seq![MSG_KEY_EVENT] + wire::le16(key_code)
            + seq![wire::flag(pressed)],
        ClientMessage::KeyScancode { scancode, extended, pressed } => seq![MSG_KEY_SCANCODE]
            + wire::le16(scancode) + seq![wire::flag(extended), wire::flag(pressed)],
        ClientMessage::ClientReady => seq![MSG_CLIENT_READY],
        ClientMessage::SelectMonitor { index } => seq![MSG_SELECT_MONITOR, index],
        ClientMessage::SelectAudio { index } => seq![MSG_SELECT_AUDIO, index],
        ClientMessage::SetKeyboardLayout { klid } => seq![MSG_SET_KEYBOARD_LAYOUT] + wire::le32(
            klid,
        ),
        ClientMessage::Ping { client_ts_us } => seq![MSG_PING] + wire::le64(client_ts_us),
        ClientMessage::SelectEncoder { index } => seq![MSG_SELECT_ENCODER, index],
        ClientMessage::SelectProfile { index } => seq![MSG_SELECT_PROFILE, index],
    }
}

/// The client message that the bytes `d` spell: `None` for an empty or cut
/// message or an unknown tag. Bytes behind a complete message are ignored.
pub open spec fn parse_client(d: Seq<u8>) -> Option<ClientMessage> {
    if d.len() == 0 {
        None
    } else if d[0] == MSG_MOUSE_MOVE && d.len() >= 5 {
        Some(ClientMessage::MouseMove { x: wire::u16_at(d, 1), y: wire::u16_at(d, 3) })
    } else if d[0] == MSG_MOUSE_BUTTON && d.len() >= 7 {
        Some(
            ClientMessage::MouseButton {
                button: d[1],
                pressed: d[2] != 0,
                x: wire::u16_at(d, 3),
                y: wire::u16_at(d, 5),
            },
        )
    } else if d[0] == MSG_MOUSE_SCROLL && d.len() >= 5 {
        Some(
            ClientMessage::MouseScroll {
                delta_x: wire::i16_at(d, 1),
                delta_y: wire::i16_at(d, 3),
            },
        )
    } else if d[0] == MSG_KEY_EVENT && d.len() >= 4 {
        Some(ClientMessage::KeyEvent { key_code: wire::u16_at(d, 1), pressed: d[3] != 0 })
    } else if d[0] == MSG_KEY_SCANCODE && d.len() >= 5 {
        Some(
            ClientMessage::KeyScancode {
                scancode: wire::u16_at(d, 1),
                extended: d[3] != 0,
                pressed: d[4] != 0,
            },
        )
    } else if d[0] == MSG_CLIENT_READY {
        Some(ClientMessage::ClientReady)
    } else if d[0] == MSG_SELECT_MONITOR && d.len() >= 2 {
        Some(ClientMessage::SelectMonitor { index: d[1] })
    } else if d[0] == MSG_SELECT_AUDIO && d.len() >= 2 {
        Some(ClientMessage::SelectAudio { index: d[1] })
    } else if d[0] == MSG_SET_KEYBOARD_LAYOUT && d.len() >= 5 {
        Some(ClientMessage::SetKeyboardLayout { klid: wire::u32_at(d, 1) })
    } else if d[0] == MSG_PING && d.len() >= 9 {
        Some(ClientMessage::Ping { client_ts_us: wire::u64_at(d, 1) })
    } else if d[0] == MSG_SELECT_ENCODER && d.len() >= 2 {
        Some(ClientMessage::SelectEncoder { index: d[1] })
    } else if d[0] == MSG_SELECT_PROFILE && d.len() >= 2 {
        Some(ClientMessage::SelectProfile { index: d[1] })
    } else {
        None
    }
}

// ── Encoding ───────────────────────────────────────────────────────

fn put_monitor(buf: &mut Vec<u8>, m: &MonitorInfo)
    ensures
        final(buf)@ == old(buf)@ + monitor_bytes(*m),
{
    buf.push(m.index);
    wire::put_i16(buf, m.x);
    wire::put_i16(buf, m.y);
    wire::put_u16(buf, m.width);
    wire::put_u16(buf, m.height);
    wire::put_flag(buf, m.primary);
    proof {
        assert(buf@ =~= old(buf)@ + monitor_bytes(*m));
    }
}

fn put_monitors(buf: &mut Vec<u8>, monitors: &Vec<MonitorInfo>)
    ensures
        final(buf)@ == old(buf)@ + monitors_bytes(monitors@),
{
    let mut i: usize = 0;
    proof {
        assert(buf@ =~= old(buf)@ + monitors_bytes(monitors@.take(0)));
    }
    while i < monitors.len()
        invariant
            i <= monitors@.len(),
            buf@ == old(buf)@ + monitors_bytes(monitors@.take(i as int)),
        decreases monitors@.len() - i,
    {
        put_monitor(buf, &monitors[i]);
        proof {
            let before = monitors@.take(i as int);
            let after = monitors@.take(i + 1);
            assert(monitors_bytes(after) =~= monitors_bytes(before) + monitor_bytes(
                monitors@[i as int],
            )) by {
                assert forall|j: int| 0 <= j < 10 * after.len() implies monitors_bytes(after)[j]
                    == (monitors_bytes(before) + monitor_bytes(monitors@[i as int]))[j] by {
                    if j < 10 * before.len() {
                        assert(after[j / 10] == before[j / 10]);
                    } else {
                        assert(j / 10 == i);
                        assert(j % 10 == j - 10 * i);
                    }
                }
            }
            assert(old(buf)@ + monitors_bytes(before) + monitor_bytes(monitors@[i as int])
                =~= old(buf)@ + monitors_bytes(after));
        }
        i = i + 1;
    }
    proof {
        assert(monitors@.take(i as int) =~= monitors@);
    }
}

fn put_devices(buf: &mut Vec<u8>, devices: &Vec<AudioDeviceInfo>)
    ensures
        final(buf)@ == old(buf)@ + wire::records_bytes(device_records(device_models(devices@))),
{
    let mut i: usize = 0;
    let ghost rs = device_records(device_models(devices@));
    proof {
        assert(buf@ =~= old(buf)@ + wire::records_bytes(rs.take(0)));
    }
    while i < devices.len()
        invariant
            i <= devices@.len(),
            rs == device_records(device_models(devices@)),
            buf@ == old(buf)@ + wire::records_bytes(rs.take(i as int)),
        decreases devices@.len() - i,
    {
        let d = &devices[i];
        buf.push(d.index);
        wire::put_name(buf, &d.name);
        proof {
            assert(rs.take(i + 1).drop_last() =~= rs.take(i as int));
            assert(buf@ =~= old(buf)@ + wire::records_bytes(rs.take(i + 1)));
        }
        i = i + 1;
    }
    proof {
        assert(rs.take(i as int) =~= rs);
    }
}

fn put_encoders(buf: &mut Vec<u8>, encoders: &Vec<EncoderInfo>)
    ensures
        final(buf)@ == old(buf)@ + wire::records_bytes(encoder_records(encoder_models(encoders@))),
{
    let mut i: usize = 0;
    let ghost rs = encoder_records(encoder_models(encoders@));
    proof {
        assert(buf@ =~= old(buf)@ + wire::records_bytes(rs.take(0)));
    }
    while i < encoders.len()
        invariant
            i <= encoders@.len(),
            rs == encoder_records(encoder_models(encoders@)),
            buf@ == old(buf)@ + wire::records_bytes(rs.take(i as int)),
        decreases encoders@.len() - i,
    {
        let e = &encoders[i];
        buf.push(e.index);
        buf.push(e.codec);
        buf.push(e.hw_vendor);
        wire::put_flag(buf, e.active);
        wire::put_name(buf, &e.name);
        proof {
            assert(rs.take(i + 1).drop_last() =~= rs.take(i as int));
            assert(buf@ =~= old(buf)@ + wire::records_bytes(rs.take(i + 1)));
        }
        i = i + 1;
    }
    proof {
        assert(rs.take(i as int) =~= rs);
    }
}

fn put_profiles(buf: &mut Vec<u8>, profiles: &Vec<ProfileInfo>)
    ensures
        final(buf)@ == old(buf)@ + wire::records_bytes(profile_records(profile_models(profiles@))),
{
    let mut i: usize = 0;
    let ghost rs = profile_records(profile_models(profiles@));
    proof {
        assert(buf@ =~= old(buf)@ + wire::records_bytes(rs.take(0)));
    }
    while i < profiles.len()
        invariant
            i <= profiles@.len(),
            rs == profile_records(profile_models(profiles@)),
            buf@ == old(buf)@ + wire::records_bytes(rs.take(i as int)),
        decreases profiles@.len() - i,
    {
        let p = &profiles[i];
        buf.push(p.index);
        wire::put_flag(buf, p.active);
        wire::put_name(buf, &p.name);
        proof {
            assert(rs.take(i + 1).drop_last() =~= rs.take(i as int));
            assert(buf@ =~= old(buf)@ + wire::records_bytes(rs.take(i + 1)));
        }
        i = i + 1;
    }
    proof {
        assert(rs.take(i as int) =~= rs);
    }
}

/// Opens a list message: its tag and its count.
fn list_header(tag: u8, len: usize) -> (buf: Vec<u8>)
    ensures
        buf@ == seq![tag, count_byte(len as nat)],
{
    let mut buf: Vec<u8> = Vec::new();
    buf.push(tag);
    buf.push((len % 256) as u8);
    proof {
        assert(buf@ =~= seq![tag, count_byte(len as nat)]);
    }
    buf
}

impl ServerMessage {
    /// The message as one binary frame. A list of more than 255 entries, or a
    /// name of more than 65535 bytes, leaves its length field cut.
    pub fn encode(&self) -> (buf: Vec<u8>)
        ensures
            buf@ == server_bytes(self@),
    {
        match self {
            ServerMessage::VideoFrame { timestamp_us, is_keyframe, data } => {
                let mut buf: Vec<u8> = Vec::new();
                buf.push(MSG_VIDEO_FRAME);
                wire::put_u64(&mut buf, *timestamp_us);
                wire::put_flag(&mut buf, *is_keyframe);
                wire::put_bytes(&mut buf, data.as_slice());
                proof {
                    assert(buf@ =~= server_bytes(self@));
                }
                buf
            },
            ServerMessage::ServerInfo { width, height, fps, codec } => {
                let mut buf: Vec<u8> = Vec::new();
                buf.push(MSG_SERVER_INFO);
                wire::put_u16(&mut buf, *width);
                wire::put_u16(&mut buf, *height);
                buf.push(*fps);
                buf.push(*codec);
                proof {
                    assert(buf@ =~= server_bytes(self@));
                }
                buf
            },
            ServerMessage::CursorInfo { x, y, visible } => {
                let mut buf: Vec<u8> = Vec::new();
                buf.push(MSG_CURSOR_INFO);
                wire::put_u16(&mut buf, *x);
                wire::put_u16(&mut buf, *y);
                wire::put_flag(&mut buf, *visible);
                proof {
                    assert(buf@ =~= server_bytes(self@));
                }
                buf
            },
            ServerMessage::MonitorList { monitors } => {
                let mut buf = list_header(MSG_MONITOR_LIST, monitors.len());
                put_monitors(&mut buf, monitors);
                buf
            },
            ServerMessage::AudioData { data } => {
                let mut buf: Vec<u8> = Vec::new();
                buf.push(MSG_AUDIO_DATA);
                wire::put_bytes(&mut buf, data.as_slice());
                proof {
                    assert(buf@ =~= server_bytes(self@));
                }
                buf
            },
            ServerMessage::AudioDeviceList { devices } => {
                let mut buf = list_header(MSG_AUDIO_DEVICE_LIST, devices.len());
                put_devices(&mut buf, devices);
                buf
            },
            ServerMessage::Pong { client_ts_us } => {
                let mut buf: Vec<u8> = Vec::new();
                buf.push(MSG_PONG);
                wire::put_u64(&mut buf, *client_ts_us);
                proof {
                    assert(buf@ =~= server_bytes(self@));
                }
                buf
            },
            ServerMessage::EncoderList { encoders } => {
                let mut buf = list_header(MSG_ENCODER_LIST, encoders.len());
                put_encoders(&mut buf, encoders);
                buf
            },
            ServerMessage::ProfileList { profiles } => {
                let mut buf = list_header(MSG_PROFILE_LIST, profiles.len());
                put_profiles(&mut buf, profiles);
                buf
            },
        }
    }
}

impl ClientMessage {
    /// The message as one binary frame.
    pub fn encode(&self) -> (buf: Vec<u8>)
        ensures
            buf@ == client_bytes(*self),
    {
        let mut buf: Vec<u8> = Vec::new();
        match self {
            ClientMessage::MouseMove { x, y } => {
                buf.push(MSG_MOUSE_MOVE);
                wire::put_u16(&mut buf, *x);
                wire::put_u16(&mut buf, *y);
            },
            ClientMessage::MouseButton { button, pressed, x, y } => {
                buf.push(MSG_MOUSE_BUTTON);
                buf.push(*button);
                wire::put_flag(&mut buf, *pressed);
                wire::put_u16(&mut buf, *x);
                wire::put_u16(&mut buf, *y);
            },
            ClientMessage::MouseScroll { delta_x, delta_y } => {
                buf.push(MSG_MOUSE_SCROLL);
                wire::put_i16(&mut buf, *delta_x);
                wire::put_i16(&mut buf, *delta_y);
            },
            ClientMessage::KeyEvent { key_code, pressed } => {
                buf.push(MSG_KEY_EVENT);
                wire::put_u16(&mut buf, *key_code);
                wire::put_flag(&mut buf, *pressed);
            },
            ClientMessage::KeyScancode { scancode, extended, pressed } => {
                buf.push(MSG_KEY_SCANCODE);
                wire::put_u16(&mut buf, *scancode);
                wire::put_flag(&mut buf, *extended);
                wire::put_flag(&mut buf, *pressed);
            },
            ClientMessage::ClientReady => {
                buf.push(MSG_CLIENT_READY);
            },
            ClientMessage::SelectMonitor { index } => {
                buf.push(MSG_SELECT_MONITOR);
                buf.push(*index);
            },
            ClientMessage::SelectAudio { index } => {
                buf.push(MSG_SELECT_AUDIO);
                buf.push(*index);
            },
            ClientMessage::SetKeyboardLayout { klid } => {
                buf.push(MSG_SET_KEYBOARD_LAYOUT);
                wire::put_u32(&mut buf, *klid);
            },
            ClientMessage::Ping { client_ts_us } => {
                buf.push(MSG_PING);
                wire::put_u64(&mut buf, *client_ts_us);
            },
            ClientMessage::SelectEncoder { index } => {
                buf.push(MSG_SELECT_ENCODER);
                buf.push(*index);
            },
            ClientMessage::SelectProfile { index } => {
                buf.push(MSG_SELECT_PROFILE);
                buf.push(*index);
            },
        }
        proof {
            assert(buf@ =~= client_bytes(*self));
        }
        buf
    }
}

// ── Decoding ───────────────────────────────────────────────────────

fn get_monitors(d: &[u8]) -> (r: Vec<MonitorInfo>)
    requires
        d@.len() >= 2,
        d@.len() >= 2 + 10 * d@[1],
    ensures
        r@ == Seq::new(d@[1] as nat, |i: int| monitor_at(d@, 2 + 10 * i)),
{
    let count: usize = d[1] as usize;
    let mut monitors: Vec<MonitorInfo> = Vec::new();
    let mut i: usize = 0;
    while i < count
        invariant
            i <= count,
            count == d@[1],
            d@.len() >= 2 + 10 * count,
            monitors@ == Seq::new(i as nat, |j: int| monitor_at(d@, 2 + 10 * j)),
        decreases count - i,
    {
        let at: usize = 2 + 10 * i;
        assert(at + 9 < d.len());
        let m = MonitorInfo {
            index: d[at],
            x: wire::get_i16(d, at + 1),
            y: wire::get_i16(d, at + 3),
            width: wire::get_u16(d, at + 5),
            height: wire::get_u16(d, at + 7),
            primary: d[at + 9] != 0,
        };
        monitors.push(m);
        i = i + 1;
        proof {
            assert(monitors@ =~= Seq::new(i as nat, |j: int| monitor_at(d@, 2 + 10 * j)));
        }
    }
    monitors
}

/// The records of a list are those already read and those still to be read.
proof fn lemma_next_record(
    d: Seq<u8>,
    pos: int,
    head: int,
    done: Seq<wire::Record>,
    left: nat,
)
    requires
        left > 0,
    ensures
        match wire::record_end(d, pos, head) {
            None => wire::parse_records(d, pos, head, left) is None,
            Some(end) => match wire::parse_records(d, end, head, (left - 1) as nat) {
                None => wire::parse_records(d, pos, head, left) is None,
                Some(rest) => wire::parse_records(d, pos, head, left) is Some && done
                    + wire::parse_records(d, pos, head, left)->0 == done.push(
                    wire::record_between(d, pos, head, end),
                ) + rest,
            },
        },
{
    if let Some(end) = wire::record_end(d, pos, head) {
        if let Some(rest) = wire::parse_records(d, end, head, (left - 1) as nat) {
            let r = wire::record_between(d, pos, head, end);
            assert(done + (seq![r] + rest) =~= done.push(r) + rest);
        }
    }
}

/// Whether `all` is what is read when `done` has been read and `left` records
/// are still to come at `pos`.
spec fn reading(
    all: Option<Seq<wire::Record>>,
    d: Seq<u8>,
    pos: int,
    head: int,
    done: Seq<wire::Record>,
    left: nat,
) -> bool {
    match wire::parse_records(d, pos, head, left) {
        None => all is None,
        Some(rest) => all == Some(done + rest),
    }
}

fn get_devices(d: &[u8]) -> (r: Option<Vec<AudioDeviceInfo>>)
    requires
        d@.len() >= 2,
    ensures
        match r {
            Some(v) => parse_devices(d@) == Some(device_models(v@)),
            None => parse_devices(d@) is None,
        },
{
    let count: usize = d[1] as usize;
    let mut devices: Vec<AudioDeviceInfo> = Vec::new();
    let mut pos: usize = 2;
    let mut i: usize = 0;
    let ghost all = wire::parse_records(d@, 2, 1, count as nat);
    let ghost mut done: Seq<wire::Record> = Seq::empty();
    proof {
        if let Some(rs) = all {
            assert(done + rs =~= rs);
        }
    }
    while i < count
        invariant
            i <= count,
            count == d@[1],
            pos <= d@.len(),
            all == wire::parse_records(d@, 2, 1, count as nat),
            reading(all, d@, pos as int, 1, done, (count - i) as nat),
            done.len() == i,
            devices@.len() == i,
            forall|j: int| 0 <= j < i ==> (#[trigger] devices@[j])@ == record_device(done[j]),
        decreases count - i,
    {
        proof {
            lemma_next_record(d@, pos as int, 1, done, (count - i) as nat);
        }
        let (name, end) = match wire::get_name(d, pos, 1) {
            Some(r) => r,
            None => return None,
        };
        devices.push(AudioDeviceInfo { index: d[pos], name });
        proof {
            done = done.push(wire::record_between(d@, pos as int, 1, end as int));
        }
        pos = end;
        i = i + 1;
    }
    proof {
        assert(done + Seq::<wire::Record>::empty() =~= done);
        assert(device_models(devices@) =~= Seq::new(
            done.len(),
            |j: int| record_device(done[j]),
        ));
    }
    Some(devices)
}

fn get_encoders(d: &[u8]) -> (r: Option<Vec<EncoderInfo>>)
    requires
        d@.len() >= 2,
    ensures
        match r {
            Some(v) => parse_encoders(d@) == Some(encoder_models(v@)),
            None => parse_encoders(d@) is None,
        },
{
    let count: usize = d[1] as usize;
    let mut encoders: Vec<EncoderInfo> = Vec::new();
    let mut pos: usize = 2;
    let mut i: usize = 0;
    let ghost all = wire::parse_records(d@, 2, 4, count as nat);
    let ghost mut done: Seq<wire::Record> = Seq::empty();
    proof {
        if let Some(rs) = all {
            assert(done + rs =~= rs);
        }
    }
    while i < count
        invariant
            i <= count,
            count == d@[1],
            pos <= d@.len(),
            all == wire::parse_records(d@, 2, 4, count as nat),
            reading(all, d@, pos as int, 4, done, (count - i) as nat),
            done.len() == i,
            encoders@.len() == i,
            forall|j: int| 0 <= j < i ==> (#[trigger] encoders@[j])@ == record_encoder(done[j]),
        decreases count - i,
    {
        proof {
            lemma_next_record(d@, pos as int, 4, done, (count - i) as nat);
        }
        let (name, end) = match wire::get_name(d, pos, 4) {
            Some(r) => r,
            None => return None,
        };
        encoders.push(EncoderInfo {
            index: d[pos],
            name,
            codec: d[pos + 1],
            hw_vendor: d[pos + 2],
            active: d[pos + 3] != 0,
        });
        proof {
            done = done.push(wire::record_between(d@, pos as int, 4, end as int));
        }
        pos = end;
        i = i + 1;
    }
    proof {
        assert(done + Seq::<wire::Record>::empty() =~= done);
        assert(encoder_models(encoders@) =~= Seq::new(
            done.len(),
            |j: int| record_encoder(done[j]),
        ));
    }
    Some(encoders)
}

fn get_profiles(d: &[u8]) -> (r: Option<Vec<ProfileInfo>>)
    requires
        d@.len() >= 2,
    ensures
        match r {
            Some(v) => parse_profiles(d@) == Some(profile_models(v@)),
            None => parse_profiles(d@) is None,
        },
{
    let count: usize = d[1] as usize;
    let mut profiles: Vec<ProfileInfo> = Vec::new();
    let mut pos: usize = 2;
    let mut i: usize = 0;
    let ghost all = wire::parse_records(d@, 2, 2, count as nat);
    let ghost mut done: Seq<wire::Record> = Seq::empty();
    proof {
        if let Some(rs) = all {
            assert(done + rs =~= rs);
        }
    }
    while i < count
        invariant
            i <= count,
            count == d@[1],
            pos <= d@.len(),
            all == wire::parse_records(d@, 2, 2, count as nat),
            reading(all, d@, pos as int, 2, done, (count - i) as nat),
            done.len() == i,
            profiles@.len() == i,
            forall|j: int| 0 <= j < i ==> (#[trigger] profiles@[j])@ == record_profile(done[j]),
        decreases count - i,
    {
        proof {
            lemma_next_record(d@, pos as int, 2, done, (count - i) as nat);
        }
        let (name, end) = match wire::get_name(d, pos, 2) {
            Some(r) => r,
            None => return None,
        };
        profiles.push(ProfileInfo { index: d[pos], name, active: d[pos + 1] != 0 });
        proof {
            done = done.push(wire::record_between(d@, pos as int, 2, end as int));
        }
        pos = end;
        i = i + 1;
    }
    proof {
        assert(done + Seq::<wire::Record>::empty() =~= done);
        assert(profile_models(profiles@) =~= Seq::new(
            done.len(),
            |j: int| record_profile(done[j]),
        ));
    }
    Some(profiles)
}

impl ServerMessage {
    /// Reads a server message; `None` for an empty or cut message or an
    /// unknown tag.
    pub fn decode(data: &[u8]) -> (r: Option<Self>)
        ensures
            match r {
                Some(m) => parse_server(data@) == Some(m@),
                None => parse_server(data@) is None,
            },
    {
        let n: usize = data.len();
        if n == 0 {
            return None;
        }
        let tag: u8 = data[0];
        if tag == MSG_VIDEO_FRAME && n >= 10 {
            let timestamp_us: u64 = wire::get_u64(data, 1);
            let is_keyframe: bool = data[9] != 0;
            let frame = slice_to_vec(slice_subrange(data, 10, n));
            Some(ServerMessage::VideoFrame { timestamp_us, is_keyframe, data: frame })
        } else if tag == MSG_SERVER_INFO && n >= 6 {
            let codec: u8 = if n > 6 {
                data[6]
            } else {
                0
            };
            Some(
                ServerMessage::ServerInfo {
                    width: wire::get_u16(data, 1),
                    height: wire::get_u16(data, 3),
                    fps: data[5],
                    codec,
                },
            )
        } else if tag == MSG_CURSOR_INFO && n >= 6 {
            Some(
                ServerMessage::CursorInfo {
                    x: wire::get_u16(data, 1),
                    y: wire::get_u16(data, 3),
                    visible: data[5] != 0,
                },
            )
        } else if tag == MSG_MONITOR_LIST && n >= 2 && n >= 2 + 10 * (data[1] as usize) {
            Some(ServerMessage::MonitorList { monitors: get_monitors(data) })
        } else if tag == MSG_AUDIO_DATA && n > 1 {
            Some(ServerMessage::AudioData { data: slice_to_vec(slice_subrange(data, 1, n)) })
        } else if tag == MSG_AUDIO_DEVICE_LIST && n >= 2 {
            match get_devices(data) {
                Some(devices) => Some(ServerMessage::AudioDeviceList { devices }),
                None => None,
            }
        } else if tag == MSG_PONG && n >= 9 {
            Some(ServerMessage::Pong { client_ts_us: wire::get_u64(data, 1) })
        } else if tag == MSG_ENCODER_LIST && n >= 2 {
            match get_encoders(data) {
                Some(encoders) => Some(ServerMessage::EncoderList { encoders }),
                None => None,
            }
        } else if tag == MSG_PROFILE_LIST && n >= 2 {
            match get_profiles(data) {
                Some(profiles) => Some(ServerMessage::ProfileList { profiles }),
                None => None,
            }
        } else {
            None
        }
    }
}

impl ClientMessage {
    /// Reads a client message; `None` for an empty or cut message or an
    /// unknown tag.
    pub fn decode(data: &[u8]) -> (r: Option<Self>)
        ensures
            r == parse_client(data@),
    {
        let n: usize = data.len();
        if n == 0 {
            return None;
        }
        let tag: u8 = data[0];
        if tag == MSG_MOUSE_MOVE && n >= 5 {
            Some(
                ClientMessage::MouseMove { x: wire::get_u16(data, 1), y: wire::get_u16(data, 3) },
            )
        } else if tag == MSG_MOUSE_BUTTON && n >= 7 {
            Some(
                ClientMessage::MouseButton {
                    button: data[1],
                    pressed: data[2] != 0,
                    x: wire::get_u16(data, 3),
                    y: wire::get_u16(data, 5),
                },
            )
        } else if tag == MSG_MOUSE_SCROLL && n >= 5 {
            Some(
                ClientMessage::MouseScroll {
                    delta_x: wire::get_i16(data, 1),
                    delta_y: wire::get_i16(data, 3),
                },
            )
        } else if tag == MSG_KEY_EVENT && n >= 4 {
            Some(
                ClientMessage::KeyEvent {
                    key_code: wire::get_u16(data, 1),
                    pressed: data[3] != 0,
                },
            )
        } else if tag == MSG_KEY_SCANCODE && n >= 5 {
            Some(
                ClientMessage::KeyScancode {
                    scancode: wire::get_u16(data, 1),
                    extended: data[3] != 0,
                    pressed: data[4] != 0,
                },
            )
        } else if tag == MSG_CLIENT_READY {
            Some(ClientMessage::ClientReady)
        } else if tag == MSG_SELECT_MONITOR && n >= 2 {
            Some(ClientMessage::SelectMonitor { index: data[1] })
        } else if tag == MSG_SELECT_AUDIO && n >= 2 {
            Some(ClientMessage::SelectAudio { index: data[1] })
        } else if tag == MSG_SET_KEYBOARD_LAYOUT && n >= 5 {
            Some(ClientMessage::SetKeyboardLayout { klid: wire::get_u32(data, 1) })
        } else if tag == MSG_PING && n >= 9 {
            Some(ClientMessage::Ping { client_ts_us: wire::get_u64(data, 1) })
        } else if tag == MSG_SELECT_ENCODER && n >= 2 {
            Some(ClientMessage::SelectEncoder { index: data[1] })
        } else if tag == MSG_SELECT_PROFILE && n >= 2 {
            Some(ClientMessage::SelectProfile { index: data[1] })
        } else {
            None
        }
    }
}

// ── Laws ───────────────────────────────────────────────────────────

/// Whether a server message fits its length fields: at most 255 entries in a
/// list, names of at most 65535 bytes, and audio that is not empty.
pub open spec fn fits_wire(m: ServerModel) -> bool {
    match m {
        ServerModel::MonitorList { monitors } => monitors.len() <= 255,
        ServerModel::AudioData { data } => data.len() > 0,
        ServerModel::AudioDeviceList { devices } => devices.len() <= 255 && forall|i: int|
            0 <= i < devices.len() ==> vstd::utf8::encode_utf8((#[trigger] devices[i]).name).len()
                <= 65535,
        ServerModel::EncoderList { encoders } => encoders.len() <= 255 && forall|i: int|
            0 <= i < encoders.len() ==> vstd::utf8::encode_utf8((#[trigger] encoders[i]).name).len()
                <= 65535,
        ServerModel::ProfileList { profiles } => profiles.len() <= 255 && forall|i: int|
            0 <= i < profiles.len() ==> vstd::utf8::encode_utf8((#[trigger] profiles[i]).name).len()
                <= 65535,
        _ => true,
    }
}

proof fn lemma_monitor_at(d: Seq<u8>, at: int, m: MonitorInfo)
    requires
        0 <= at,
        at + 10 <= d.len(),
        d.subrange(at, at + 10) == monitor_bytes(m),
    ensures
        monitor_at(d, at) == m,
{
    let b = d.subrange(at, at + 10);
    assert(b[0] == m.index);
    assert(d.subrange(at + 1, at + 3) =~= b.subrange(1, 3));
    assert(d.subrange(at + 3, at + 5) =~= b.subrange(3, 5));
    assert(d.subrange(at + 5, at + 7) =~= b.subrange(5, 7));
    assert(d.subrange(at + 7, at + 9) =~= b.subrange(7, 9));
    assert(b.subrange(1, 3) =~= wire::le16(wire::twos_complement(m.x)));
    assert(b.subrange(3, 5) =~= wire::le16(wire::twos_complement(m.y)));
    assert(b.subrange(5, 7) =~= wire::le16(m.width));
    assert(b.subrange(7, 9) =~= wire::le16(m.height));
    assert(b[9] == wire::flag(m.primary));
    wire::law_integers_round_trip(d, at + 1);
    wire::law_integers_round_trip(d, at + 3);
    wire::law_integers_round_trip(d, at + 5);
    wire::law_integers_round_trip(d, at + 7);
    assert(wire::signed(wire::twos_complement(m.x)) == m.x);
    assert(wire::signed(wire::twos_complement(m.y)) == m.y);
    assert(monitor_at(d, at).x == m.x);
    assert(monitor_at(d, at).y == m.y);
}

proof fn lemma_monitors_round_trip(monitors: Seq<MonitorInfo>)
    requires
        monitors.len() <= 255,
    ensures
        parse_server(server_bytes(ServerModel::MonitorList { monitors })) == Some(
            ServerModel::MonitorList { monitors },
        ),
{
    let d = server_bytes(ServerModel::MonitorList { monitors });
    let all = monitors_bytes(monitors);
    assert(d[1] == monitors.len());
    assert forall|i: int| 0 <= i < monitors.len() implies monitor_at(d, 2 + 10 * i)
        == monitors[i] by {
        let at = 2 + 10 * i;
        let b = monitor_bytes(monitors[i]);
        assert(b.len() == 10);
        assert forall|k: int| 0 <= k < 10 implies d.subrange(at, at + 10)[k] == b[k] by {
            let j = 10 * i + k;
            assert(j / 10 == i && j % 10 == k);
            assert(d[at + k] == all[j]);
        }
        assert(d.subrange(at, at + 10) =~= b);
        lemma_monitor_at(d, at, monitors[i]);
    }
    assert(Seq::new(d[1] as nat, |i: int| monitor_at(d, 2 + 10 * i)) =~= monitors);
}

proof fn lemma_devices_round_trip(devices: Seq<DeviceModel>)
    requires
        fits_wire(ServerModel::AudioDeviceList { devices }),
    ensures
        parse_server(server_bytes(ServerModel::AudioDeviceList { devices })) == Some(
            ServerModel::AudioDeviceList { devices },
        ),
{
    let d = server_bytes(ServerModel::AudioDeviceList { devices });
    let rs = device_records(devices);
    let before = seq![MSG_AUDIO_DEVICE_LIST, count_byte(devices.len())];
    assert forall|i: int| 0 <= i < rs.len() implies (#[trigger] rs[i]).head.len() == 1
        && vstd::utf8::encode_utf8(rs[i].name).len() < 65536 by {
        assert(rs[i].name == devices[i].name);
    }
    wire::law_records_round_trip(before, rs, 1, Seq::empty());
    assert(before + wire::records_bytes(rs) + Seq::<u8>::empty() =~= d);
    assert(d[1] == devices.len());
    assert(Seq::new(rs.len(), |i: int| record_device(rs[i])) =~= devices);
}

proof fn lemma_encoders_round_trip(encoders: Seq<EncoderModel>)
    requires
        fits_wire(ServerModel::EncoderList { encoders }),
    ensures
        parse_server(server_bytes(ServerModel::EncoderList { encoders })) == Some(
            ServerModel::EncoderList { encoders },
        ),
{
    let d = server_bytes(ServerModel::EncoderList { encoders });
    let rs = encoder_records(encoders);
    let before = seq![MSG_ENCODER_LIST, count_byte(encoders.len())];
    assert forall|i: int| 0 <= i < rs.len() implies (#[trigger] rs[i]).head.len() == 4
        && vstd::utf8::encode_utf8(rs[i].name).len() < 65536 by {
        assert(rs[i].name == encoders[i].name);
    }
    wire::law_records_round_trip(before, rs, 4, Seq::empty());
    assert(before + wire::records_bytes(rs) + Seq::<u8>::empty() =~= d);
    assert(d[1] == encoders.len());
    assert(Seq::new(rs.len(), |i: int| record_encoder(rs[i])) =~= encoders);
}

proof fn lemma_profiles_round_trip(profiles: Seq<ProfileModel>)
    requires
        fits_wire(ServerModel::ProfileList { profiles }),
    ensures
        parse_server(server_bytes(ServerModel::ProfileList { profiles })) == Some(
            ServerModel::ProfileList { profiles },
        ),
{
    let d = server_bytes(ServerModel::ProfileList { profiles });
    let rs = profile_records(profiles);
    let before = seq![MSG_PROFILE_LIST, count_byte(profiles.len())];
    assert forall|i: int| 0 <= i < rs.len() implies (#[trigger] rs[i]).head.len() == 2
        && vstd::utf8::encode_utf8(rs[i].name).len() < 65536 by {
        assert(rs[i].name == profiles[i].name);
    }
    wire::law_records_round_trip(before, rs, 2, Seq::empty());
    assert(before + wire::records_bytes(rs) + Seq::<u8>::empty() =~= d);
    assert(d[1] == profiles.len());
    assert(Seq::new(rs.len(), |i: int| record_profile(rs[i])) =~= profiles);
}

/// Every server message that fits its length fields comes back from its bytes.
pub proof fn law_server_round_trip(m: ServerModel)
    requires
        fits_wire(m),
    ensures
        parse_server(server_bytes(m)) == Some(m),
{
    let d = server_bytes(m);
    match m {
        ServerModel::VideoFrame { timestamp_us, is_keyframe, data } => {
            assert(d.subrange(1, 9) =~= wire::le64(timestamp_us));
            wire::law_integers_round_trip(d, 1);
            assert(wire::le64(timestamp_us).len() == 8);
            assert(d.subrange(10, d.len() as int) =~= data);
        },
        ServerModel::ServerInfo { width, height, fps, codec } => {},
        ServerModel::CursorInfo { x, y, visible } => {},
        ServerModel::MonitorList { monitors } => {
            lemma_monitors_round_trip(monitors);
        },
        ServerModel::AudioData { data } => {
            assert(d.subrange(1, d.len() as int) =~= data);
        },
        ServerModel::AudioDeviceList { devices } => {
            lemma_devices_round_trip(devices);
        },
        ServerModel::Pong { client_ts_us } => {
            assert(d.subrange(1, 9) =~= wire::le64(client_ts_us));
            wire::law_integers_round_trip(d, 1);
            assert(wire::le64(client_ts_us).len() == 8);
        },
        ServerModel::EncoderList { encoders } => {
            lemma_encoders_round_trip(encoders);
        },
        ServerModel::ProfileList { profiles } => {
            lemma_profiles_round_trip(profiles);
        },
    }
}

/// Every client message comes back from its bytes.
pub proof fn law_client_round_trip(m: ClientMessage)
    ensures
        parse_client(client_bytes(m)) == Some(m),
{
    let d = client_bytes(m);
    match m {
        ClientMessage::SetKeyboardLayout { klid } => {
            assert(d.subrange(1, 5) =~= wire::le32(klid));
            wire::law_integers_round_trip(d, 1);
            assert(wire::le32(klid).len() == 4);
        },
        ClientMessage::Ping { client_ts_us } => {
            assert(d.subrange(1, 9) =~= wire::le64(client_ts_us));
            wire::law_integers_round_trip(d, 1);
            assert(wire::le64(client_ts_us).len() == 8);
        },
        _ => {},
    }
}

/// A client message that is cut anywhere is refused.
pub proof fn law_cut_client_message_is_refused(m: ClientMessage, k: int)
    requires
        0 <= k < client_bytes(m).len(),
    ensures
        parse_client(client_bytes(m).take(k)) is None,
{
    let d = client_bytes(m).take(k);
    assert(k > 0 ==> d[0] == client_bytes(m)[0]);
    match m {
        ClientMessage::SetKeyboardLayout { klid } => {
            assert(wire::le32(klid).len() == 4);
        },
        ClientMessage::Ping { client_ts_us } => {
            assert(wire::le64(client_ts_us).len() == 8);
        },
        _ => {},
    }
}

proof fn lemma_cut_list(tag: u8, count: u8, rs: Seq<wire::Record>, head: int, k: int)
    requires
        count == rs.len(),
        2 <= k < 2 + wire::records_bytes(rs).len(),
        forall|i: int| 0 <= i < rs.len() ==> (#[trigger] rs[i]).head.len() == head,
        forall|i: int|
            0 <= i < rs.len() ==> vstd::utf8::encode_utf8((#[trigger] rs[i]).name).len() < 65536,
    ensures
        ({
            let d = (seq![tag, count] + wire::records_bytes(rs)).take(k);
            d[1] == count && wire::parse_records(d, 2, head, count as nat) is None
        }),
{
    wire::law_cut_records_are_refused(seq![tag, count], rs, head, k);
}

proof fn lemma_cut_devices(devices: Seq<DeviceModel>, k: int)
    requires
        fits_wire((ServerModel::AudioDeviceList { devices })),
        0 <= k < server_bytes((ServerModel::AudioDeviceList { devices })).len(),
    ensures
        parse_server(server_bytes((ServerModel::AudioDeviceList { devices })).take(k)) is None,
{
    let all = server_bytes(ServerModel::AudioDeviceList { devices });
    let d = all.take(k);
    if k > 0 {
        assert(d[0] == MSG_AUDIO_DEVICE_LIST);
    }
    if k >= 2 {
        let rs = device_records(devices);
        assert forall|i: int| 0 <= i < rs.len() implies vstd::utf8::encode_utf8(
            (#[trigger] rs[i]).name,
        ).len() < 65536 by {
            assert(rs[i].name == devices[i].name);
        }
        lemma_cut_list(MSG_AUDIO_DEVICE_LIST, count_byte(devices.len()), rs, 1, k);
        assert(parse_devices(d) is None);
    }
}

proof fn lemma_cut_encoders(encoders: Seq<EncoderModel>, k: int)
    requires
        fits_wire((ServerModel::EncoderList { encoders })),
        0 <= k < server_bytes((ServerModel::EncoderList { encoders })).len(),
    ensures
        parse_server(server_bytes((ServerModel::EncoderList { encoders })).take(k)) is None,
{
    let all = server_bytes(ServerModel::EncoderList { encoders });
    let d = all.take(k);
    if k > 0 {
        assert(d[0] == MSG_ENCODER_LIST);
    }
    if k >= 2 {
        let rs = encoder_records(encoders);
        assert forall|i: int| 0 <= i < rs.len() implies vstd::utf8::encode_utf8(
            (#[trigger] rs[i]).name,
        ).len() < 65536 by {
            assert(rs[i].name == encoders[i].name);
        }
        lemma_cut_list(MSG_ENCODER_LIST, count_byte(encoders.len()), rs, 4, k);
        assert(parse_encoders(d) is None);
    }
}

proof fn lemma_cut_profiles(profiles: Seq<ProfileModel>, k: int)
    requires
        fits_wire((ServerModel::ProfileList { profiles })),
        0 <= k < server_bytes((ServerModel::ProfileList { profiles })).len(),
    ensures
        parse_server(server_bytes((ServerModel::ProfileList { profiles })).take(k)) is None,
{
    let all = server_bytes(ServerModel::ProfileList { profiles });
    let d = all.take(k);
    if k > 0 {
        assert(d[0] == MSG_PROFILE_LIST);
    }
    if k >= 2 {
        let rs = profile_records(profiles);
        assert forall|i: int| 0 <= i < rs.len() implies vstd::utf8::encode_utf8(
            (#[trigger] rs[i]).name,
        ).len() < 65536 by {
            assert(rs[i].name == profiles[i].name);
        }
        lemma_cut_list(MSG_PROFILE_LIST, count_byte(profiles.len()), rs, 2, k);
        assert(parse_profiles(d) is None);
    }
}

proof fn lemma_cut_monitors(monitors: Seq<MonitorInfo>, k: int)
    requires
        monitors.len() <= 255,
        0 <= k < 2 + 10 * monitors.len(),
    ensures
        parse_server(server_bytes((ServerModel::MonitorList { monitors })).take(k)) is None,
{
    let all = server_bytes(ServerModel::MonitorList { monitors });
    let d = all.take(k);
    if k > 0 {
        assert(d[0] == MSG_MONITOR_LIST);
    }
    if k >= 2 {
        assert(d[1] == monitors.len());
    }
}

/// A server message that is cut anywhere is refused, except where it runs to
/// the end of its frame, or where only the codec byte is missing.
pub proof fn law_cut_server_message_is_refused(m: ServerModel, k: int)
    requires
        fits_wire(m),
        0 <= k < server_bytes(m).len(),
        m is VideoFrame ==> k < 10,
        m is AudioData ==> k < 2,
        m is ServerInfo ==> k < 6,
    ensures
        parse_server(server_bytes(m).take(k)) is None,
{
    match m {
        ServerModel::MonitorList { monitors } => {
            lemma_cut_monitors(monitors, k);
        },
        ServerModel::AudioDeviceList { devices } => {
            lemma_cut_devices(devices, k);
        },
        ServerModel::EncoderList { encoders } => {
            lemma_cut_encoders(encoders, k);
        },
        ServerModel::ProfileList { profiles } => {
            lemma_cut_profiles(profiles, k);
        },
        _ => {
            let all = server_bytes(m);
            if k > 0 {
                assert(all.take(k)[0] == all[0]);
            }
            if let ServerModel::Pong { client_ts_us } = m {
                assert(wire::le64(client_ts_us).len() == 8);
            }
        },
    }
}

/// A message that opens the stream without its codec byte is read as one for
/// H.264, and nothing else of it changes.
pub proof fn law_missing_codec_is_h264(width: u16, height: u16, fps: u8, codec: u8)
    ensures
        parse_server(
            server_bytes((ServerModel::ServerInfo { width, height, fps, codec })).drop_last(),
        ) == Some((ServerModel::ServerInfo { width, height, fps, codec: 0 })),
{
    let d = server_bytes(ServerModel::ServerInfo { width, height, fps, codec });
    law_server_round_trip(ServerModel::ServerInfo { width, height, fps, codec });
    assert(d.len() == 7);
    assert(wire::u16_at(d.drop_last(), 1) == wire::u16_at(d, 1));
    assert(wire::u16_at(d.drop_last(), 3) == wire::u16_at(d, 3));
}

/// A message with a tag that the reader does not know is ignored, so either
/// end can be extended first.
pub proof fn law_unknown_tags_are_ignored(d: Seq<u8>)
    ensures
        d.len() == 0 ==> parse_server(d) is None && parse_client(d) is None,
        d.len() > 0 && !(MSG_VIDEO_FRAME <= d[0] <= MSG_PROFILE_LIST) ==> parse_server(d) is None,
        d.len() > 0 && !(MSG_MOUSE_MOVE <= d[0] <= MSG_SELECT_PROFILE) ==> parse_client(d) is None,
{
}

/// No message is read as one of the other direction.
pub proof fn law_directions_are_apart(d: Seq<u8>)
    ensures
        parse_server(d) is None || parse_client(d) is None,
{
}

/// Bytes behind a client message do not change how it is read.
pub proof fn law_client_ignores_what_follows(d: Seq<u8>, after: Seq<u8>)
    requires
        parse_client(d) is Some,
    ensures
        parse_client(d + after) == parse_client(d),
{
}

/// Bytes behind a server message do not change how it is read, except where
/// the message runs to the end of its frame or lacks the codec byte.
pub proof fn law_server_ignores_what_follows(d: Seq<u8>, after: Seq<u8>)
    requires
        parse_server(d) is Some,
        !(parse_server(d)->0 is VideoFrame),
        !(parse_server(d)->0 is AudioData),
        !(parse_server(d)->0 is ServerInfo && d.len() == 6),
    ensures
        parse_server(d + after) == parse_server(d),
{
    let long = d + after;
    assert(long[0] == d[0]);
    if d[0] == MSG_MONITOR_LIST {
        assert(Seq::new(d[1] as nat, |i: int| monitor_at(long, 2 + 10 * i)) =~= Seq::new(
            d[1] as nat,
            |i: int| monitor_at(d, 2 + 10 * i),
        ));
    } else if d[0] == MSG_AUDIO_DEVICE_LIST {
        wire::law_records_ignore_what_follows(d, 2, 1, d[1] as nat, after);
    } else if d[0] == MSG_ENCODER_LIST {
        wire::law_records_ignore_what_follows(d, 2, 4, d[1] as nat, after);
    } else if d[0] == MSG_PROFILE_LIST {
        wire::law_records_ignore_what_follows(d, 2, 2, d[1] as nat, after);
    }
}

/// The number that the `n` bytes of `d` from `at` on spell, least significant
/// first.
pub open spec fn spelled(d: Seq<u8>, at: int, n: int) -> int
    decreases n,
{
    if n <= 0 {
        0
    } else {
        d[at] + 256 * spelled(d, at + 1, n - 1)
    }
}

proof fn lemma_spelled(d: Seq<u8>, at: int)
    ensures
        spelled(d, at, 2) == wire::u16_at(d, at),
        spelled(d, at, 4) == wire::u32_at(d, at),
        spelled(d, at, 8) == wire::u64_at(d, at),
{
    reveal_with_fuel(spelled, 9);
}

/// What a client message looks like on the wire: its tag, then its fields in
/// order, numbers with the least significant byte first, negative ones in two's
/// complement, and yes or no as one or zero.
#[verifier::spinoff_prover]
#[verifier::rlimit(60)]
pub proof fn law_client_layout(m: ClientMessage)
    ensures
        ({
            let d = client_bytes(m);
            match m {
                ClientMessage::MouseMove { x, y } => d.len() == 5 && d[0] == 0x10 && spelled(
                    d,
                    1,
                    2,
                ) == x && spelled(d, 3, 2) == y,
                ClientMessage::MouseButton { button, pressed, x, y } => d.len() == 7 && d[0]
                    == 0x11 && d[1] == button && d[2] == (if pressed {
                    1int
                } else {
                    0
                }) && spelled(d, 3, 2) == x && spelled(d, 5, 2) == y,
                ClientMessage::MouseScroll { delta_x, delta_y } => d.len() == 5 && d[0] == 0x12
                    && spelled(d, 1, 2) == delta_x as int % 65536 && spelled(d, 3, 2)
                    == delta_y as int % 65536,
                ClientMessage::KeyEvent { key_code, pressed } => d.len() == 4 && d[0] == 0x13
                    && spelled(d, 1, 2) == key_code && d[3] == (if pressed {
                    1int
                } else {
                    0
                }),
                ClientMessage::ClientReady => d.len() == 1 && d[0] == 0x14,
                ClientMessage::SelectMonitor { index } => d.len() == 2 && d[0] == 0x15 && d[1]
                    == index,
                ClientMessage::SelectAudio { index } => d.len() == 2 && d[0] == 0x16 && d[1]
                    == index,
                ClientMessage::KeyScancode { scancode, extended, pressed } => d.len() == 5 && d[0]
                    == 0x17 && spelled(d, 1, 2) == scancode && d[3] == (if extended {
                    1int
                } else {
                    0
                }) && d[4] == (if pressed {
                    1int
                } else {
                    0
                }),
                ClientMessage::SetKeyboardLayout { klid } => d.len() == 5 && d[0] == 0x18
                    && spelled(d, 1, 4) == klid,
                ClientMessage::Ping { client_ts_us } => d.len() == 9 && d[0] == 0x19 && spelled(
                    d,
                    1,
                    8,
                ) == client_ts_us,
                ClientMessage::SelectEncoder { index } => d.len() == 2 && d[0] == 0x1A && d[1]
                    == index,
                ClientMessage::SelectProfile { index } => d.len() == 2 && d[0] == 0x1B && d[1]
                    == index,
            }
        }),
{
    let d = client_bytes(m);
    law_client_round_trip(m);
    match m {
        ClientMessage::SetKeyboardLayout { klid } => {
            assert(wire::le32(klid).len() == 4);
            lemma_spelled(d, 1);
        },
        ClientMessage::Ping { client_ts_us } => {
            assert(wire::le64(client_ts_us).len() == 8);
            lemma_spelled(d, 1);
        },
        ClientMessage::MouseButton { button, pressed, x, y } => {
            lemma_spelled(d, 3);
            lemma_spelled(d, 5);
        },
        ClientMessage::MouseMove { x, y } => {
            lemma_spelled(d, 1);
            lemma_spelled(d, 3);
        },
        ClientMessage::MouseScroll { delta_x, delta_y } => {
            lemma_spelled(d, 1);
            lemma_spelled(d, 3);
        },
        ClientMessage::KeyEvent { key_code, pressed } => {
            lemma_spelled(d, 1);
        },
        ClientMessage::KeyScancode { scancode, extended, pressed } => {
            lemma_spelled(d, 1);
        },
        _ => {},
    }
}

/// How client messages are read: the bytes behind the tag in order, and every
/// byte but zero as yes. Bytes beyond a message's length do not matter.
#[verifier::spinoff_prover]
#[verifier::rlimit(60)]
pub proof fn law_client_is_read(d: Seq<u8>)
    requires
        d.len() >= 9,
    ensures
        ({
            let m = parse_client(d);
            &&& d[0] == 0x10 ==> m is Some && m->0 is MouseMove && m->0->MouseMove_x == spelled(
                d,
                1,
                2,
            ) && m->0->MouseMove_y == spelled(d, 3, 2)
            &&& d[0] == 0x11 ==> m is Some && m->0 is MouseButton && m->0->button == d[1] && (
            m->0->MouseButton_pressed <==> d[2] != 0) && m->0->MouseButton_x == spelled(d, 3, 2)
                && m->0->MouseButton_y == spelled(d, 5, 2)
            &&& d[0] == 0x12 ==> m is Some && m->0 is MouseScroll && m->0->delta_x as int % 65536
                == spelled(d, 1, 2) && m->0->delta_y as int % 65536 == spelled(d, 3, 2)
            &&& d[0] == 0x13 ==> m is Some && m->0 is KeyEvent && m->0->key_code == spelled(d, 1, 2)
                && (m->0->KeyEvent_pressed <==> d[3] != 0)
            &&& d[0] == 0x14 ==> m == Some(ClientMessage::ClientReady)
            &&& d[0] == 0x15 ==> m == Some(ClientMessage::SelectMonitor { index: d[1] })
            &&& d[0] == 0x16 ==> m == Some(ClientMessage::SelectAudio { index: d[1] })
            &&& d[0] == 0x17 ==> m is Some && m->0 is KeyScancode && m->0->scancode == spelled(
                d,
                1,
                2,
            ) && (m->0->extended <==> d[3] != 0) && (m->0->KeyScancode_pressed <==> d[4] != 0)
            &&& d[0] == 0x18 ==> m is Some && m->0 is SetKeyboardLayout && m->0->klid == spelled(
                d,
                1,
                4,
            )
            &&& d[0] == 0x19 ==> m is Some && m->0 is Ping && m->0->client_ts_us == spelled(d, 1, 8)
            &&& d[0] == 0x1A ==> m == Some(ClientMessage::SelectEncoder { index: d[1] })
            &&& d[0] == 0x1B ==> m == Some(ClientMessage::SelectProfile { index: d[1] })
        }),
{
    lemma_spelled(d, 1);
    lemma_spelled(d, 3);
    lemma_spelled(d, 5);
}

/// What the server messages without a list look like on the wire.
#[verifier::spinoff_prover]
#[verifier::rlimit(60)]
pub proof fn law_server_layout(m: ServerModel)
    ensures
        ({
            let d = server_bytes(m);
            match m {
                ServerModel::VideoFrame { timestamp_us, is_keyframe, data } => d.len() == 10
                    + data.len() && d[0] == 1 && spelled(d, 1, 8) == timestamp_us && d[9] == (
                if is_keyframe {
                    1int
                } else {
                    0
                }) && d.skip(10) == data,
                ServerModel::ServerInfo { width, height, fps, codec } => d.len() == 7 && d[0] == 2
                    && spelled(d, 1, 2) == width && spelled(d, 3, 2) == height && d[5] == fps
                    && d[6] == codec,
                ServerModel::CursorInfo { x, y, visible } => d.len() == 6 && d[0] == 3 && spelled(
                    d,
                    1,
                    2,
                ) == x && spelled(d, 3, 2) == y && d[5] == (if visible {
                    1int
                } else {
                    0
                }),
                ServerModel::AudioData { data } => d.len() == 1 + data.len() && d[0] == 5
                    && d.skip(1) == data,
                ServerModel::Pong { client_ts_us } => d.len() == 9 && d[0] == 7 && spelled(d, 1, 8)
                    == client_ts_us,
                _ => true,
            }
        }),
{
    let d = server_bytes(m);
    match m {
        ServerModel::VideoFrame { timestamp_us, is_keyframe, data } => {
            law_server_round_trip(m);
            lemma_spelled(d, 1);
            assert(wire::le64(timestamp_us).len() == 8);
            assert(d.skip(10) =~= data);
        },
        ServerModel::Pong { client_ts_us } => {
            law_server_round_trip(m);
            lemma_spelled(d, 1);
            assert(wire::le64(client_ts_us).len() == 8);
        },
        ServerModel::AudioData { data } => {
            assert(d.skip(1) =~= data);
        },
        ServerModel::ServerInfo { width, height, fps, codec } => {
            law_server_round_trip(m);
            lemma_spelled(d, 1);
            lemma_spelled(d, 3);
        },
        ServerModel::CursorInfo { x, y, visible } => {
            law_server_round_trip(m);
            lemma_spelled(d, 1);
            lemma_spelled(d, 3);
        },
        _ => {},
    }
}

/// How the server messages without a list are read.
#[verifier::spinoff_prover]
#[verifier::rlimit(60)]
pub proof fn law_server_is_read(d: Seq<u8>)
    requires
        d.len() >= 10,
    ensures
        ({
            let m = parse_server(d);
            &&& d[0] == 1 ==> m is Some && m->0 is VideoFrame && m->0->timestamp_us == spelled(
                d,
                1,
                8,
            ) && (m->0->is_keyframe <==> d[9] != 0) && m->0->VideoFrame_data == d.skip(10)
            &&& d[0] == 2 ==> m is Some && m->0 is ServerInfo && m->0->width == spelled(d, 1, 2)
                && m->0->height == spelled(d, 3, 2) && m->0->fps == d[5] && m->0->codec == d[6]
            &&& d[0] == 3 ==> m is Some && m->0 is CursorInfo && m->0->x == spelled(d, 1, 2)
                && m->0->y == spelled(d, 3, 2) && (m->0->visible <==> d[5] != 0)
            &&& d[0] == 5 ==> m is Some && m->0 is AudioData && m->0->AudioData_data == d.skip(1)
            &&& d[0] == 7 ==> m is Some && m->0 is Pong && m->0->client_ts_us == spelled(d, 1, 8)
        }),
{
    lemma_spelled(d, 1);
    lemma_spelled(d, 3);
    assert(d.skip(10) =~= d.subrange(10, d.len() as int));
    assert(d.skip(1) =~= d.subrange(1, d.len() as int));
}

proof fn lemma_monitor_bytes(m: MonitorInfo)
    ensures
        ({
            let d = monitor_bytes(m);
            &&& d.len() == 10
            &&& d[0] == m.index
            &&& spelled(d, 1, 2) == m.x as int % 65536
            &&& spelled(d, 3, 2) == m.y as int % 65536
            &&& spelled(d, 5, 2) == m.width
            &&& spelled(d, 7, 2) == m.height
            &&& d[9] == wire::flag(m.primary)
        }),
{
    reveal_with_fuel(spelled, 3);
}

proof fn lemma_monitor_place(monitors: Seq<MonitorInfo>, i: int)
    requires
        0 <= i < monitors.len(),
    ensures
        ({
            let d = server_bytes((ServerModel::MonitorList { monitors }));
            &&& d.len() == 2 + 10 * monitors.len()
            &&& d.subrange(2 + 10 * i, 12 + 10 * i) == monitor_bytes(monitors[i])
        }),
{
    let d = server_bytes(ServerModel::MonitorList { monitors });
    let own = monitor_bytes(monitors[i]);
    assert(own.len() == 10);
    let part = d.subrange(2 + 10 * i, 12 + 10 * i);
    assert forall|j: int| 0 <= j < 10 implies #[trigger] part[j] == own[j] by {
        assert((10 * i + j) / 10 == i && (10 * i + j) % 10 == j);
    }
    assert(part =~= own);
}

proof fn lemma_spelled_inside(d: Seq<u8>, at: int, own: Seq<u8>, k: int)
    requires
        0 <= at,
        at + own.len() <= d.len(),
        d.subrange(at, (at + own.len()) as int) == own,
        0 <= k && k + 2 <= own.len(),
    ensures
        spelled(d, at + k, 2) == spelled(own, k, 2),
{
    reveal_with_fuel(spelled, 3);
    assert(own[k] == d[at + k]);
    assert(own[k + 1] == d[at + k + 1]);
}

/// A monitor list has ten bytes for each monitor behind its tag and its count:
/// the index, the place, the size, and whether it is the primary one.
#[verifier::spinoff_prover]
#[verifier::rlimit(60)]
pub proof fn law_monitor_list_layout(monitors: Seq<MonitorInfo>, i: int)
    requires
        0 <= i < monitors.len(),
    ensures
        ({
            let d = server_bytes((ServerModel::MonitorList { monitors }));
            let at = 2 + 10 * i;
            &&& d.len() == 2 + 10 * monitors.len()
            &&& d[0] == 4
            &&& d[1] == monitors.len() % 256
            &&& d[at] == monitors[i].index
            &&& spelled(d, at + 1, 2) == monitors[i].x as int % 65536
            &&& spelled(d, at + 3, 2) == monitors[i].y as int % 65536
            &&& spelled(d, at + 5, 2) == monitors[i].width
            &&& spelled(d, at + 7, 2) == monitors[i].height
            &&& d[at + 9] == (if monitors[i].primary {
                1int
            } else {
                0
            })
        }),
{
    let d = server_bytes(ServerModel::MonitorList { monitors });
    let at = 2 + 10 * i;
    lemma_monitor_bytes(monitors[i]);
    lemma_monitor_place(monitors, i);
    let own = monitor_bytes(monitors[i]);
    assert(d.subrange(at, at + 10) == own);
    lemma_spelled_inside(d, at, own, 1);
    lemma_spelled_inside(d, at, own, 3);
    lemma_spelled_inside(d, at, own, 5);
    lemma_spelled_inside(d, at, own, 7);
    assert(own[0] == d[at]);
    assert(own[9] == d[at + 9]);
}

/// How the entries of a monitor list are read.
#[verifier::spinoff_prover]
#[verifier::rlimit(60)]
pub proof fn law_monitor_list_is_read(d: Seq<u8>, i: int)
    requires
        d.len() >= 2,
        d[0] == 4,
        d.len() >= 2 + 10 * d[1],
        0 <= i < d[1],
    ensures
        ({
            let m = parse_server(d);
            let at = 2 + 10 * i;
            &&& m is Some && m->0 is MonitorList
            &&& m->0->monitors.len() == d[1]
            &&& m->0->monitors[i].index == d[at]
            &&& m->0->monitors[i].x as int % 65536 == spelled(d, at + 1, 2)
            &&& m->0->monitors[i].y as int % 65536 == spelled(d, at + 3, 2)
            &&& m->0->monitors[i].width == spelled(d, at + 5, 2)
            &&& m->0->monitors[i].height == spelled(d, at + 7, 2)
            &&& m->0->monitors[i].primary <==> d[at + 9] != 0
        }),
{
    let at = 2 + 10 * i;
    lemma_spelled(d, at + 1);
    lemma_spelled(d, at + 3);
    lemma_spelled(d, at + 5);
    lemma_spelled(d, at + 7);
}

/// The bytes of a name: its length in two bytes, least significant first, then
/// its UTF-8.
pub open spec fn name_bytes(name: Seq<char>) -> Seq<u8> {
    let utf8 = vstd::utf8::encode_utf8(name);
    seq![(utf8.len() % 256) as u8, ((utf8.len() / 256) % 256) as u8] + utf8
}

proof fn lemma_record_bytes(head: Seq<u8>, name: Seq<char>)
    ensures
        wire::record_bytes(wire::Record { head, name }) == head + name_bytes(name),
{
    let n = vstd::utf8::encode_utf8(name).len();
    assert((n % 65536) % 256 == n % 256);
    assert((n % 65536) / 256 == (n / 256) % 256);
    assert(wire::record_bytes(wire::Record { head, name }) =~= head + name_bytes(name));
}

proof fn lemma_records_push(rs: Seq<wire::Record>, r: wire::Record)
    ensures
        wire::records_bytes(rs.push(r)) == wire::records_bytes(rs) + wire::record_bytes(r),
{
    assert(rs.push(r).drop_last() =~= rs);
}

/// A device list holds, behind its tag and its count, the index and the name of
/// each device, one behind the other.
pub proof fn law_device_list_layout(devices: Seq<DeviceModel>, e: DeviceModel)
    ensures
        server_bytes((ServerModel::AudioDeviceList { devices: Seq::empty() })) == seq![6u8, 0],
        ({
            let before = server_bytes((ServerModel::AudioDeviceList { devices }));
            let after = server_bytes((ServerModel::AudioDeviceList { devices: devices.push(e) }));
            &&& after[0] == 6
            &&& after[1] == (devices.len() + 1) % 256
            &&& after.skip(2) == before.skip(2) + seq![e.index] + name_bytes(e.name)
        }),
{
    assert(device_records(Seq::empty()) =~= Seq::<wire::Record>::empty());
    assert(server_bytes(ServerModel::AudioDeviceList { devices: Seq::empty() }) =~= seq![6u8, 0]);
    let before = server_bytes(ServerModel::AudioDeviceList { devices });
    let after = server_bytes(ServerModel::AudioDeviceList { devices: devices.push(e) });
    let rs = device_records(devices);
    assert(device_records(devices.push(e)) =~= rs.push(device_record(e)));
    lemma_records_push(rs, device_record(e));
    lemma_record_bytes(seq![e.index], e.name);
    assert(before.skip(2) =~= wire::records_bytes(rs));
    assert(after.skip(2) =~= wire::records_bytes(rs.push(device_record(e))));
    assert(after.skip(2) =~= before.skip(2) + seq![e.index] + name_bytes(e.name));
}

/// An encoder list holds, behind its tag and its count, the index, the codec,
/// the vendor, whether it is in use, and the name of each encoder.
pub proof fn law_encoder_list_layout(encoders: Seq<EncoderModel>, e: EncoderModel)
    ensures
        server_bytes((ServerModel::EncoderList { encoders: Seq::empty() })) == seq![8u8, 0],
        ({
            let before = server_bytes((ServerModel::EncoderList { encoders }));
            let after = server_bytes((ServerModel::EncoderList { encoders: encoders.push(e) }));
            &&& after[0] == 8
            &&& after[1] == (encoders.len() + 1) % 256
            &&& after.skip(2) == before.skip(2) + seq![
                e.index,
                e.codec,
                e.hw_vendor,
                if e.active {
                    1u8
                } else {
                    0u8
                },
            ] + name_bytes(e.name)
        }),
{
    assert(encoder_records(Seq::empty()) =~= Seq::<wire::Record>::empty());
    assert(server_bytes(ServerModel::EncoderList { encoders: Seq::empty() }) =~= seq![8u8, 0]);
    let before = server_bytes(ServerModel::EncoderList { encoders });
    let after = server_bytes(ServerModel::EncoderList { encoders: encoders.push(e) });
    let rs = encoder_records(encoders);
    let head = encoder_record(e).head;
    assert(encoder_records(encoders.push(e)) =~= rs.push(encoder_record(e)));
    lemma_records_push(rs, encoder_record(e));
    lemma_record_bytes(head, e.name);
    assert(before.skip(2) =~= wire::records_bytes(rs));
    assert(after.skip(2) =~= wire::records_bytes(rs.push(encoder_record(e))));
    assert(after.skip(2) =~= before.skip(2) + head + name_bytes(e.name));
    assert(head =~= seq![
        e.index,
        e.codec,
        e.hw_vendor,
        if e.active {
            1u8
        } else {
            0u8
        },
    ]);
}

/// A profile list holds, behind its tag and its count, the index, whether it is
/// in use, and the name of each profile.
pub proof fn law_profile_list_layout(profiles: Seq<ProfileModel>, e: ProfileModel)
    ensures
        server_bytes((ServerModel::ProfileList { profiles: Seq::empty() })) == seq![9u8, 0],
        ({
            let before = server_bytes((ServerModel::ProfileList { profiles }));
            let after = server_bytes((ServerModel::ProfileList { profiles: profiles.push(e) }));
            &&& after[0] == 9
            &&& after[1] == (profiles.len() + 1) % 256
            &&& after.skip(2) == before.skip(2) + seq![
                e.index,
                if e.active {
                    1u8
                } else {
                    0u8
                },
            ] + name_bytes(e.name)
        }),
{
    assert(profile_records(Seq::empty()) =~= Seq::<wire::Record>::empty());
    assert(server_bytes(ServerModel::ProfileList { profiles: Seq::empty() }) =~= seq![9u8, 0]);
    let before = server_bytes(ServerModel::ProfileList { profiles });
    let after = server_bytes(ServerModel::ProfileList { profiles: profiles.push(e) });
    let rs = profile_records(profiles);
    let head = profile_record(e).head;
    assert(profile_records(profiles.push(e)) =~= rs.push(profile_record(e)));
    lemma_records_push(rs, profile_record(e));
    lemma_record_bytes(head, e.name);
    assert(before.skip(2) =~= wire::records_bytes(rs));
    assert(after.skip(2) =~= wire::records_bytes(rs.push(profile_record(e))));
    assert(after.skip(2) =~= before.skip(2) + head + name_bytes(e.name));
    assert(head =~= seq![
        e.index,
        if e.active {
            1u8
        } else {
            0u8
        },
    ]);
}

/// How the entries of the lists are read: the bytes in front of the name in
/// order, and every byte but zero as yes.
pub proof fn law_list_entries_are_read(r: wire::Record)
    ensures
        record_device(r).index == r.head[0],
        record_device(r).name == r.name,
        record_encoder(r).index == r.head[0],
        record_encoder(r).codec == r.head[1],
        record_encoder(r).hw_vendor == r.head[2],
        record_encoder(r).active <==> r.head[3] != 0,
        record_encoder(r).name == r.name,
        record_profile(r).index == r.head[0],
        record_profile(r).active <==> r.head[1] != 0,
        record_profile(r).name == r.name,
{
}

} // verus!
