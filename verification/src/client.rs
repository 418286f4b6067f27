//! What the browser side does with messages: building requests, reading the
//! lists the server sends field by field, and keeping a window of latencies.

use crate::protocol;
use crate::protocol::{
    ClientMessage, MonitorInfo, MSG_AUDIO_DEVICE_LIST, MSG_ENCODER_LIST, MSG_MONITOR_LIST,
    MSG_PROFILE_LIST,
};
use crate::wire;
use vstd::prelude::*;
use vstd::slice::slice_subrange;

verus! {

// ── Requests ───────────────────────────────────────────────────────

/// The client can show frames.
pub fn encode_client_ready() -> (buf: Vec<u8>)
    ensures
        buf@ == protocol::client_bytes(ClientMessage::ClientReady),
{
    ClientMessage::ClientReady.encode()
}

/// The pointer moved to a position of the streamed monitor.
pub fn encode_mouse_move(x: u16, y: u16) -> (buf: Vec<u8>)
    ensures
        buf@ == protocol::client_bytes((ClientMessage::MouseMove { x, y })),
{
    (ClientMessage::MouseMove { x, y }).encode()
}

/// A mouse button went down or up.
pub fn encode_mouse_button(button: u8, pressed: bool, x: u16, y: u16) -> (buf: Vec<u8>)
    ensures
        buf@ == protocol::client_bytes((ClientMessage::MouseButton { button, pressed, x, y })),
{
    (ClientMessage::MouseButton { button, pressed, x, y }).encode()
}

/// The wheel turned.
pub fn encode_mouse_scroll(delta_x: i16, delta_y: i16) -> (buf: Vec<u8>)
    ensures
        buf@ == protocol::client_bytes((ClientMessage::MouseScroll { delta_x, delta_y })),
{
    (ClientMessage::MouseScroll { delta_x, delta_y }).encode()
}

/// A key, by its Windows virtual-key code.
pub fn encode_key_event(key_code: u16, pressed: bool) -> (buf: Vec<u8>)
    ensures
        buf@ == protocol::client_bytes((ClientMessage::KeyEvent { key_code, pressed })),
{
    (ClientMessage::KeyEvent { key_code, pressed }).encode()
}

/// A key, by its PS/2 set 1 scancode; `extended` stands for the `E0` prefix.
pub fn encode_key_scancode(scancode: u16, extended: bool, pressed: bool) -> (buf: Vec<u8>)
    ensures
        buf@ == protocol::client_bytes((ClientMessage::KeyScancode { scancode, extended, pressed })),
{
    (ClientMessage::KeyScancode { scancode, extended, pressed }).encode()
}

/// Switches the keyboard layout that the server reads scancodes with.
pub fn encode_set_keyboard_layout(klid: u32) -> (buf: Vec<u8>)
    ensures
        buf@ == protocol::client_bytes((ClientMessage::SetKeyboardLayout { klid })),
{
    (ClientMessage::SetKeyboardLayout { klid }).encode()
}

/// Asks for another monitor.
pub fn encode_select_monitor(index: u8) -> (buf: Vec<u8>)
    ensures
        buf@ == protocol::client_bytes((ClientMessage::SelectMonitor { index })),
{
    (ClientMessage::SelectMonitor { index }).encode()
}

/// Asks for an audio device; 255 turns audio off.
pub fn encode_select_audio(index: u8) -> (buf: Vec<u8>)
    ensures
        buf@ == protocol::client_bytes((ClientMessage::SelectAudio { index })),
{
    (ClientMessage::SelectAudio { index }).encode()
}

/// Asks for an entry of the last encoder list.
pub fn encode_select_encoder(index: u8) -> (buf: Vec<u8>)
    ensures
        buf@ == protocol::client_bytes((ClientMessage::SelectEncoder { index })),
{
    (ClientMessage::SelectEncoder { index }).encode()
}

/// Asks for an entry of the last profile list.
pub fn encode_select_profile(index: u8) -> (buf: Vec<u8>)
    ensures
        buf@ == protocol::client_bytes((ClientMessage::SelectProfile { index })),
{
    (ClientMessage::SelectProfile { index }).encode()
}

/// Asks for an echo of a timestamp, to measure the round trip on one clock.
pub fn encode_ping(client_ts_us: u64) -> (buf: Vec<u8>)
    ensures
        buf@ == protocol::client_bytes((ClientMessage::Ping { client_ts_us })),
{
    (ClientMessage::Ping { client_ts_us }).encode()
}

// ── Monitor list ───────────────────────────────────────────────────

/// The count byte of a list message with tag `tag`, or 0 for anything else.
pub open spec fn list_count(d: Seq<u8>, tag: u8) -> u8 {
    if d.len() < 2 || d[0] != tag {
        0
    } else {
        d[1]
    }
}

fn count_of(data: &[u8], tag: u8) -> (n: u8)
    ensures
        n == list_count(data@, tag),
{
    if data.len() < 2 || data[0] != tag {
        return 0;
    }
    data[1]
}

/// The `i`-th entry of a monitor list, as far as its bytes are there.
pub open spec fn monitor_entry(d: Seq<u8>, i: u8) -> Option<MonitorInfo> {
    if d.len() < 2 + i * 10 + 10 || d[0] != MSG_MONITOR_LIST {
        None
    } else {
        Some(protocol::monitor_at(d, 2 + 10 * i))
    }
}

/// Where the `i`-th entry of a monitor list starts, if its bytes are there.
fn monitor_entry_offset(data: &[u8], i: u8) -> (r: Option<usize>)
    ensures
        match r {
            Some(at) => at + 10 <= data@.len() && monitor_entry(data@, i) == Some(
                protocol::monitor_at(data@, at as int),
            ),
            None => monitor_entry(data@, i) is None,
        },
{
    let off: usize = 2 + (i as usize) * 10;
    if data.len() < off + 10 || data[0] != MSG_MONITOR_LIST {
        None
    } else {
        Some(off)
    }
}

/// The number of monitors in a monitor list; 0 for another message.
pub fn monitor_list_count(data: &[u8]) -> (n: u8)
    ensures
        n == list_count(data@, MSG_MONITOR_LIST),
{
    count_of(data, MSG_MONITOR_LIST)
}

/// The index of the `i`-th monitor; zero if it is not there.
pub fn monitor_info_index(data: &[u8], i: u8) -> (r: u8)
    ensures
        r == (match monitor_entry(data@, i) {
            Some(m) => m.index,
            None => 0,
        }),
{
    match monitor_entry_offset(data, i) {
        Some(at) => {
            assert(at + 10 <= data.len());
            data[at]
        },
        None => 0,
    }
}

/// The horizontal offset of the `i`-th monitor; zero if it is not there.
pub fn monitor_info_x(data: &[u8], i: u8) -> (r: i16)
    ensures
        r == (match monitor_entry(data@, i) {
            Some(m) => m.x,
            None => 0,
        }),
{
    match monitor_entry_offset(data, i) {
        Some(at) => {
            assert(at + 10 <= data.len());
            wire::get_i16(data, at + 1)
        },
        None => 0,
    }
}

/// The vertical offset of the `i`-th monitor; zero if it is not there.
pub fn monitor_info_y(data: &[u8], i: u8) -> (r: i16)
    ensures
        r == (match monitor_entry(data@, i) {
            Some(m) => m.y,
            None => 0,
        }),
{
    match monitor_entry_offset(data, i) {
        Some(at) => {
            assert(at + 10 <= data.len());
            wire::get_i16(data, at + 3)
        },
        None => 0,
    }
}

/// The width of the `i`-th monitor; zero if it is not there.
pub fn monitor_info_width(data: &[u8], i: u8) -> (r: u16)
    ensures
        r == (match monitor_entry(data@, i) {
            Some(m) => m.width,
            None => 0,
        }),
{
    match monitor_entry_offset(data, i) {
        Some(at) => {
            assert(at + 10 <= data.len());
            wire::get_u16(data, at + 5)
        },
        None => 0,
    }
}

/// The height of the `i`-th monitor; zero if it is not there.
pub fn monitor_info_height(data: &[u8], i: u8) -> (r: u16)
    ensures
        r == (match monitor_entry(data@, i) {
            Some(m) => m.height,
            None => 0,
        }),
{
    match monitor_entry_offset(data, i) {
        Some(at) => {
            assert(at + 10 <= data.len());
            wire::get_u16(data, at + 7)
        },
        None => 0,
    }
}

/// The primary flag of the `i`-th monitor; false if it is not there.
pub fn monitor_info_primary(data: &[u8], i: u8) -> (r: bool)
    ensures
        r == (match monitor_entry(data@, i) {
            Some(m) => m.primary,
            None => false,
        }),
{
    match monitor_entry_offset(data, i) {
        Some(at) => {
            assert(at + 10 <= data.len());
            data[at + 9] != 0
        },
        None => false,
    }
}

// ── Lists of named entries ─────────────────────────────────────────

/// Where the `i`-th record from `pos` on starts, if it is complete.
pub open spec fn record_start(d: Seq<u8>, pos: int, head: int, i: nat) -> Option<int>
    decreases i,
{
    match wire::record_end(d, pos, head) {
        None => None,
        Some(end) => if i == 0 {
            Some(pos)
        } else {
            record_start(d, end, head, (i - 1) as nat)
        },
    }
}

/// The `i`-th record of a list message, counted by the bytes alone.
pub open spec fn nth_record(d: Seq<u8>, head: int, i: nat) -> Option<wire::Record> {
    match record_start(d, 2, head, i) {
        None => None,
        Some(p) => Some(wire::record_between(d, p, head, wire::record_end(d, p, head)->0)),
    }
}

/// Finds the `i`-th record from `pos` on: where it starts and where it ends.
fn find_record(data: &[u8], pos: usize, head: usize, i: u8) -> (r: Option<(usize, usize)>)
    requires
        pos <= data@.len(),
        head <= 4,
    ensures
        match r {
            Some((p, end)) => {
                &&& record_start(data@, pos as int, head as int, i as nat) == Some(p as int)
                &&& wire::record_end(data@, p as int, head as int) == Some(end as int)
                &&& p + head + 2 <= end <= data@.len()
            },
            None => record_start(data@, pos as int, head as int, i as nat) is None,
        },
{
    let mut at: usize = pos;
    let mut left: u8 = i;
    loop
        invariant
            at <= data@.len(),
            head <= 4,
            left <= i,
            record_start(data@, pos as int, head as int, i as nat) == record_start(
                data@,
                at as int,
                head as int,
                left as nat,
            ),
        decreases left,
    {
        if data.len() - at < head + 2 {
            return None;
        }
        let start: usize = at + head + 2;
        let len: usize = wire::get_u16(data, at + head) as usize;
        if data.len() - start < len {
            return None;
        }
        if left == 0 {
            return Some((at, start + len));
        }
        at = start + len;
        left = left - 1;
    }
}

/// The record of an audio device list. The count byte is not looked at.
pub open spec fn device_entry(d: Seq<u8>, i: u8) -> Option<wire::Record> {
    if d.len() < 2 || d[0] != MSG_AUDIO_DEVICE_LIST {
        None
    } else {
        nth_record(d, 1, i as nat)
    }
}

/// The record of an encoder list.
pub open spec fn encoder_entry(d: Seq<u8>, i: u8) -> Option<wire::Record> {
    if i >= list_count(d, MSG_ENCODER_LIST) {
        None
    } else {
        nth_record(d, 4, i as nat)
    }
}

/// The record of a profile list.
pub open spec fn profile_entry(d: Seq<u8>, i: u8) -> Option<wire::Record> {
    if i >= list_count(d, MSG_PROFILE_LIST) {
        None
    } else {
        nth_record(d, 2, i as nat)
    }
}

/// The name of a record, empty if there is none.
pub open spec fn entry_name(r: Option<wire::Record>) -> Seq<char> {
    match r {
        Some(r) => r.name,
        None => Seq::empty(),
    }
}

/// Byte `k` of the head of a record, 0 if there is none.
pub open spec fn entry_byte(r: Option<wire::Record>, k: int) -> u8 {
    match r {
        Some(r) => r.head[k],
        None => 0,
    }
}

fn device_entry_offset(data: &[u8], i: u8) -> (r: Option<(usize, usize)>)
    ensures
        match r {
            Some((p, end)) => p + 3 <= end <= data@.len() && device_entry(data@, i) == Some(
                wire::record_between(data@, p as int, 1, end as int),
            ),
            None => device_entry(data@, i) is None,
        },
{
    if data.len() < 2 || data[0] != MSG_AUDIO_DEVICE_LIST {
        return None;
    }
    find_record(data, 2, 1, i)
}

fn encoder_entry_offset(data: &[u8], i: u8) -> (r: Option<(usize, usize)>)
    ensures
        match r {
            Some((p, end)) => p + 6 <= end <= data@.len() && encoder_entry(data@, i) == Some(
                wire::record_between(data@, p as int, 4, end as int),
            ),
            None => encoder_entry(data@, i) is None,
        },
{
    if i >= count_of(data, MSG_ENCODER_LIST) {
        return None;
    }
    find_record(data, 2, 4, i)
}

fn profile_entry_offset(data: &[u8], i: u8) -> (r: Option<(usize, usize)>)
    ensures
        match r {
            Some((p, end)) => p + 4 <= end <= data@.len() && profile_entry(data@, i) == Some(
                wire::record_between(data@, p as int, 2, end as int),
            ),
            None => profile_entry(data@, i) is None,
        },
{
    if i >= count_of(data, MSG_PROFILE_LIST) {
        return None;
    }
    find_record(data, 2, 2, i)
}

/// The number of devices in an audio device list; 0 for another message.
pub fn audio_device_list_count(data: &[u8]) -> (n: u8)
    ensures
        n == list_count(data@, MSG_AUDIO_DEVICE_LIST),
{
    count_of(data, MSG_AUDIO_DEVICE_LIST)
}

/// The number of encoders in an encoder list; 0 for another message.
pub fn encoder_list_count(data: &[u8]) -> (n: u8)
    ensures
        n == list_count(data@, MSG_ENCODER_LIST),
{
    count_of(data, MSG_ENCODER_LIST)
}

/// The number of profiles in a profile list; 0 for another message.
pub fn profile_list_count(data: &[u8]) -> (n: u8)
    ensures
        n == list_count(data@, MSG_PROFILE_LIST),
{
    count_of(data, MSG_PROFILE_LIST)
}

/// The index of the `i`-th device; 0 if it is not there.
pub fn audio_device_index(data: &[u8], i: u8) -> (r: u8)
    ensures
        r == entry_byte(device_entry(data@, i), 0),
{
    match device_entry_offset(data, i) {
        Some((p, _end)) => data[p],
        None => 0,
    }
}

/// The name of the `i`-th device; empty if it is not there.
pub fn audio_device_name(data: &[u8], i: u8) -> (r: String)
    ensures
        r@ == entry_name(device_entry(data@, i)),
{
    match device_entry_offset(data, i) {
        Some((p, end)) => wire::text_from_bytes(slice_subrange(data, p + 3, end)),
        None => String::new(),
    }
}

/// The index of the `i`-th encoder; 0 if it is not there.
pub fn encoder_index(data: &[u8], i: u8) -> (r: u8)
    ensures
        r == entry_byte(encoder_entry(data@, i), 0),
{
    match encoder_entry_offset(data, i) {
        Some((p, _end)) => data[p],
        None => 0,
    }
}

/// The codec of the `i`-th encoder; 0 if it is not there.
pub fn encoder_codec(data: &[u8], i: u8) -> (r: u8)
    ensures
        r == entry_byte(encoder_entry(data@, i), 1),
{
    match encoder_entry_offset(data, i) {
        Some((p, _end)) => data[p + 1],
        None => 0,
    }
}

/// The hardware vendor of the `i`-th encoder; 0 if it is not there.
pub fn encoder_hw_vendor(data: &[u8], i: u8) -> (r: u8)
    ensures
        r == entry_byte(encoder_entry(data@, i), 2),
{
    match encoder_entry_offset(data, i) {
        Some((p, _end)) => data[p + 2],
        None => 0,
    }
}

/// Whether the `i`-th encoder is there and active.
pub fn encoder_is_active(data: &[u8], i: u8) -> (r: bool)
    ensures
        r == (entry_byte(encoder_entry(data@, i), 3) != 0),
{
    match encoder_entry_offset(data, i) {
        Some((p, _end)) => data[p + 3] != 0,
        None => false,
    }
}

/// The name of the `i`-th encoder; empty if it is not there.
pub fn encoder_name(data: &[u8], i: u8) -> (r: String)
    ensures
        r@ == entry_name(encoder_entry(data@, i)),
{
    match encoder_entry_offset(data, i) {
        Some((p, end)) => wire::text_from_bytes(slice_subrange(data, p + 6, end)),
        None => String::new(),
    }
}

/// The index of the `i`-th profile; 0 if it is not there.
pub fn profile_index(data: &[u8], i: u8) -> (r: u8)
    ensures
        r == entry_byte(profile_entry(data@, i), 0),
{
    match profile_entry_offset(data, i) {
        Some((p, _end)) => data[p],
        None => 0,
    }
}

/// Whether the `i`-th profile is there and active.
pub fn profile_is_active(data: &[u8], i: u8) -> (r: bool)
    ensures
        r == (entry_byte(profile_entry(data@, i), 1) != 0),
{
    match profile_entry_offset(data, i) {
        Some((p, _end)) => data[p + 1] != 0,
        None => false,
    }
}

/// The name of the `i`-th profile; empty if it is not there.
pub fn profile_name(data: &[u8], i: u8) -> (r: String)
    ensures
        r@ == entry_name(profile_entry(data@, i)),
{
    match profile_entry_offset(data, i) {
        Some((p, end)) => wire::text_from_bytes(slice_subrange(data, p + 4, end)),
        None => String::new(),
    }
}

// ── Latency window ─────────────────────────────────────────────────

/// The last latency samples, up to a fixed number of them. A sample is an
/// opaque 64-bit value: the caller stores the bits of a float.
pub struct LatencyTracker {
    samples: Vec<u64>,
    index: usize,
    capacity: usize,
}

impl LatencyTracker {
    /// The ring is filled from the front before it wraps.
    pub closed spec fn well_formed(&self) -> bool {
        &&& 1 <= self.capacity
        &&& self.index < self.capacity
        &&& self.samples@.len() <= self.capacity
        &&& self.samples@.len() < self.capacity ==> self.index == self.samples@.len()
    }

    /// How many samples are kept.
    pub closed spec fn window(&self) -> nat {
        self.capacity as nat
    }

    /// The samples kept, oldest first.
    pub closed spec fn recent(&self) -> Seq<u64> {
        if self.samples@.len() < self.capacity {
            self.samples@
        } else {
            self.samples@.skip(self.index as int) + self.samples@.take(self.index as int)
        }
    }

    /// An empty window of `window_size` samples, at least one.
    pub fn new(window_size: usize) -> (r: Self)
        ensures
            r.well_formed(),
            r.window() == (if window_size == 0 {
                1
            } else {
                window_size as nat
            }),
            r.recent() == Seq::<u64>::empty(),
    {
        let capacity: usize = if window_size == 0 {
            1
        } else {
            window_size
        };
        LatencyTracker { samples: Vec::new(), index: 0, capacity }
    }

    /// Adds a sample; the oldest one leaves a full window.
    pub fn record(&mut self, sample: u64)
        requires
            old(self).well_formed(),
        ensures
            final(self).well_formed(),
            final(self).window() == old(self).window(),
            final(self).recent() == (if old(self).recent().len() < old(self).window() {
                old(self).recent().push(sample)
            } else {
                old(self).recent().drop_first().push(sample)
            }),
    {
        if self.samples.len() < self.capacity {
            self.samples.push(sample);
        } else {
            self.samples[self.index] = sample;
        }
        self.index = if self.index + 1 == self.capacity {
            0
        } else {
            self.index + 1
        };
        proof {
            assert(final(self).recent() =~= (if old(self).recent().len() < old(self).window() {
                old(self).recent().push(sample)
            } else {
                old(self).recent().drop_first().push(sample)
            }));
        }
    }

    /// Number of samples kept so far.
    pub fn count(&self) -> (n: usize)
        requires
            self.well_formed(),
        ensures
            n == self.recent().len(),
            n <= self.window(),
    {
        self.samples.len()
    }

    /// The samples kept, in no particular order.
    pub fn samples(&self) -> (v: &Vec<u64>)
        requires
            self.well_formed(),
        ensures
            v@.to_multiset() == self.recent().to_multiset(),
    {
        proof {
            let i = self.index as int;
            let s = self.samples@;
            if s.len() >= self.capacity {
                assert(s =~= s.take(i) + s.skip(i));
                vstd::seq_lib::lemma_multiset_commutative(s.take(i), s.skip(i));
                vstd::seq_lib::lemma_multiset_commutative(s.skip(i), s.take(i));
                assert(s.take(i).to_multiset().add(s.skip(i).to_multiset()) =~= s.skip(
                    i,
                ).to_multiset().add(s.take(i).to_multiset()));
            }
        }
        &self.samples
    }
}

// ── Laws ───────────────────────────────────────────────────────────

proof fn lemma_record_start(d: Seq<u8>, pos: int, head: int, count: nat, i: nat)
    requires
        i < count,
        wire::parse_records(d, pos, head, count) is Some,
    ensures
        wire::parse_records(d, pos, head, count)->0.len() == count,
        match record_start(d, pos, head, i) {
            Some(p) => wire::record_between(d, p, head, wire::record_end(d, p, head)->0)
                == wire::parse_records(d, pos, head, count)->0[i as int],
            None => false,
        },
    decreases count,
{
    let end = wire::record_end(d, pos, head)->0;
    lemma_parsed_len(d, pos, head, count);
    if i > 0 {
        lemma_record_start(d, end, head, (count - 1) as nat, (i - 1) as nat);
    }
}

proof fn lemma_parsed_len(d: Seq<u8>, pos: int, head: int, count: nat)
    requires
        wire::parse_records(d, pos, head, count) is Some,
    ensures
        wire::parse_records(d, pos, head, count)->0.len() == count,
    decreases count,
{
    if count > 0 {
        let end = wire::record_end(d, pos, head)->0;
        lemma_parsed_len(d, end, head, (count - 1) as nat);
    }
}

/// On a message that decodes to a monitor list, the field readers agree with
/// the decoder.
pub proof fn law_monitor_readers_agree(d: Seq<u8>, monitors: Seq<MonitorInfo>, i: u8)
    requires
        protocol::parse_server(d) == Some(protocol::ServerModel::MonitorList { monitors }),
    ensures
        list_count(d, MSG_MONITOR_LIST) == monitors.len(),
        i < monitors.len() ==> monitor_entry(d, i) == Some(monitors[i as int]),
{
}

/// On a message that decodes to a device list, the field readers agree with
/// the decoder.
pub proof fn law_device_readers_agree(d: Seq<u8>, devices: Seq<protocol::DeviceModel>, i: u8)
    requires
        protocol::parse_server(d) == Some(protocol::ServerModel::AudioDeviceList { devices }),
    ensures
        list_count(d, MSG_AUDIO_DEVICE_LIST) == devices.len(),
        i < devices.len() ==> entry_byte(device_entry(d, i), 0) == devices[i as int].index
            && entry_name(device_entry(d, i)) == devices[i as int].name,
{
    lemma_parsed_len(d, 2, 1, d[1] as nat);
    if i < devices.len() {
        lemma_record_start(d, 2, 1, d[1] as nat, i as nat);
    }
}

/// On a message that decodes to an encoder list, the field readers agree with
/// the decoder.
pub proof fn law_encoder_readers_agree(d: Seq<u8>, encoders: Seq<protocol::EncoderModel>, i: u8)
    requires
        protocol::parse_server(d) == Some(protocol::ServerModel::EncoderList { encoders }),
    ensures
        list_count(d, MSG_ENCODER_LIST) == encoders.len(),
        i < encoders.len() ==> {
            &&& entry_byte(encoder_entry(d, i), 0) == encoders[i as int].index
            &&& entry_byte(encoder_entry(d, i), 1) == encoders[i as int].codec
            &&& entry_byte(encoder_entry(d, i), 2) == encoders[i as int].hw_vendor
            &&& (entry_byte(encoder_entry(d, i), 3) != 0) == encoders[i as int].active
            &&& entry_name(encoder_entry(d, i)) == encoders[i as int].name
        },
        i >= encoders.len() ==> encoder_entry(d, i) is None,
{
    lemma_parsed_len(d, 2, 4, d[1] as nat);
    if i < encoders.len() {
        lemma_record_start(d, 2, 4, d[1] as nat, i as nat);
    }
}

/// On a message that decodes to a profile list, the field readers agree with
/// the decoder.
pub proof fn law_profile_readers_agree(d: Seq<u8>, profiles: Seq<protocol::ProfileModel>, i: u8)
    requires
        protocol::parse_server(d) == Some(protocol::ServerModel::ProfileList { profiles }),
    ensures
        list_count(d, MSG_PROFILE_LIST) == profiles.len(),
        i < profiles.len() ==> {
            &&& entry_byte(profile_entry(d, i), 0) == profiles[i as int].index
            &&& (entry_byte(profile_entry(d, i), 1) != 0) == profiles[i as int].active
            &&& entry_name(profile_entry(d, i)) == profiles[i as int].name
        },
        i >= profiles.len() ==> profile_entry(d, i) is None,
{
    lemma_parsed_len(d, 2, 2, d[1] as nat);
    if i < profiles.len() {
        lemma_record_start(d, 2, 2, d[1] as nat, i as nat);
    }
}

/// An entry that is not there reads as zero and as no text.
pub proof fn law_absent_entries(d: Seq<u8>, i: u8, k: int)
    ensures
        d.len() < 12 + 10 * i ==> monitor_entry(d, i) is None,
        d.len() > 0 && d[0] != 4 ==> monitor_entry(d, i) is None && list_count(d, MSG_MONITOR_LIST)
            == 0,
        d.len() < 2 || d[0] != 6 ==> device_entry(d, i) is None && list_count(
            d,
            MSG_AUDIO_DEVICE_LIST,
        ) == 0,
        d.len() < 2 || d[0] != 8 ==> encoder_entry(d, i) is None && list_count(d, MSG_ENCODER_LIST)
            == 0,
        d.len() < 2 || d[0] != 9 ==> profile_entry(d, i) is None && list_count(d, MSG_PROFILE_LIST)
            == 0,
        entry_byte(None, k) == 0,
        entry_name(None).len() == 0,
{
}

} // verus!
