//! Where the cursor is, and what of it the client is told.

use crate::protocol::ServerMessage;
use vstd::prelude::*;

verus! {

/// Microseconds between two looks at the cursor: 120 a second.
pub const POLL_INTERVAL_US: u64 = 8333;

/// A coordinate on the wire: negative ones count as zero, large ones are cut
/// to sixteen bits.
pub open spec fn wire_coordinate(v: i32) -> u16 {
    if v < 0 {
        0
    } else {
        (v % 65536) as u16
    }
}

fn to_wire(v: i32) -> (r: u16)
    ensures
        r == wire_coordinate(v),
{
    if v < 0 {
        0
    } else {
        (v % 65536) as u16
    }
}

/// The position and visibility of the cursor on the virtual desktop, from what
/// the system reports; a hidden cursor at the origin if it reports nothing.
pub fn get_cursor_position(reported: Option<(i32, i32, bool)>) -> (r: (u16, u16, bool))
    ensures
        r == (match reported {
            Some((x, y, visible)) => (wire_coordinate(x), wire_coordinate(y), visible),
            None => (0u16, 0u16, false),
        }),
{
    match reported {
        Some((x, y, visible)) => (to_wire(x), to_wire(y), visible),
        None => (0, 0, false),
    }
}

/// Where a monitor lies on the virtual desktop.
#[derive(Debug, Clone, Copy, PartialEq, Eq, Structural)]
pub struct MonitorArea {
    pub x: i32,
    pub y: i32,
    pub width: u32,
    pub height: u32,
}

/// Whether the far corner of a monitor, and the distance of a point from its
/// near one, fit 32 bits.
pub open spec fn area_fits(x: u16, y: u16, a: MonitorArea) -> bool {
    &&& a.x + a.width <= i32::MAX
    &&& a.y + a.height <= i32::MAX
    &&& x - a.x <= i32::MAX
    &&& y - a.y <= i32::MAX
}

/// `v` kept between 0 and `size - 1`, or at 0 if `size` is 0.
pub open spec fn clamped(v: int, size: u32) -> int {
    if v <= 0 || size == 0 {
        0
    } else if v < size {
        v
    } else {
        size - 1
    }
}

/// Whether a point lies on a monitor.
pub open spec fn on_monitor(x: u16, y: u16, a: MonitorArea) -> bool {
    a.x <= x < a.x + a.width && a.y <= y < a.y + a.height
}

/// A cursor position relative to a monitor, kept on it; visible only if the
/// cursor is and lies on the monitor.
pub open spec fn relative_position(
    x: u16,
    y: u16,
    visible: bool,
    a: MonitorArea,
) -> (u16, u16, bool) {
    (
        (clamped(x - a.x, a.width) % 65536) as u16,
        (clamped(y - a.y, a.height) % 65536) as u16,
        visible && on_monitor(x, y, a),
    )
}

fn clamp_to(v: i64, size: u32) -> (r: u16)
    ensures
        r == (clamped(v as int, size) % 65536) as u16,
{
    if v <= 0 || size == 0 {
        0
    } else if v < size as i64 {
        (v % 65536) as u16
    } else {
        ((size - 1) % 65536) as u16
    }
}

/// Converts a cursor position on the virtual desktop to one on a monitor.
pub fn cursor_to_monitor_relative(abs_x: u16, abs_y: u16, visible: bool, area: MonitorArea) -> (r: (
    u16,
    u16,
    bool,
))
    requires
        area_fits(abs_x, abs_y, area),
    ensures
        r == relative_position(abs_x, abs_y, visible, area),
{
    let x: i64 = abs_x as i64;
    let y: i64 = abs_y as i64;
    let left: i64 = area.x as i64;
    let top: i64 = area.y as i64;
    let on: bool = x >= left && x < left + area.width as i64 && y >= top && y < top
        + area.height as i64;
    (clamp_to(x - left, area.width), clamp_to(y - top, area.height), visible && on)
}

/// Tells the client of the cursor only when something changed.
pub struct CursorTracker {
    last: (u16, u16, bool),
}

impl CursorTracker {
    /// What the client was told last.
    pub closed spec fn last_sent(&self) -> (u16, u16, bool) {
        self.last
    }

    /// A tracker that has told nothing: it starts with a position that no
    /// monitor has.
    pub fn new() -> (r: Self)
        ensures
            r.last_sent() == (u16::MAX, u16::MAX, false),
    {
        CursorTracker { last: (u16::MAX, u16::MAX, false) }
    }

    /// The message to send for a cursor position, if it is not what was told
    /// last.
    pub fn update(&mut self, next: (u16, u16, bool)) -> (r: Option<ServerMessage>)
        ensures
            final(self).last_sent() == next,
            r is None <==> next == old(self).last_sent(),
            r matches Some(m) ==> m == (ServerMessage::CursorInfo {
                x: next.0,
                y: next.1,
                visible: next.2,
            }),
    {
        if next.0 == self.last.0 && next.1 == self.last.1 && next.2 == self.last.2 {
            return None;
        }
        self.last = next;
        Some(ServerMessage::CursorInfo { x: next.0, y: next.1, visible: next.2 })
    }
}

/// The position that the client is told lies on the monitor.
pub proof fn law_cursor_stays_on_monitor(x: u16, y: u16, visible: bool, a: MonitorArea)
    requires
        0 < a.width <= 65536,
        0 < a.height <= 65536,
    ensures
        relative_position(x, y, visible, a).0 < a.width,
        relative_position(x, y, visible, a).1 < a.height,
        on_monitor(x, y, a) ==> a.x + relative_position(x, y, visible, a).0 == x && a.y
            + relative_position(x, y, visible, a).1 == y,
        relative_position(x, y, visible, a).2 ==> on_monitor(x, y, a),
{
}

/// A coordinate goes on the wire as it is, up to the left or upper edge of the
/// desktop, where it stops.
pub proof fn law_wire_coordinate(v: i32)
    ensures
        0 <= v <= 65535 ==> wire_coordinate(v) == v,
        v < 0 ==> wire_coordinate(v) == 0,
        v >= 0 ==> (v - wire_coordinate(v)) % 65536 == 0,
{
}

/// The pointer is told of relative to the monitor: inside it as far from its
/// corner as it stands, outside at the nearest edge. It shows if it is visible
/// and stands on the monitor.
pub proof fn law_relative_position(x: u16, y: u16, visible: bool, a: MonitorArea)
    requires
        0 < a.width <= 65536,
        0 < a.height <= 65536,
    ensures
        ({
            let r = relative_position(x, y, visible, a);
            &&& x < a.x ==> r.0 == 0
            &&& a.x <= x < a.x + a.width ==> r.0 == x - a.x
            &&& x >= a.x + a.width ==> r.0 == a.width - 1
            &&& y < a.y ==> r.1 == 0
            &&& a.y <= y < a.y + a.height ==> r.1 == y - a.y
            &&& y >= a.y + a.height ==> r.1 == a.height - 1
            &&& r.2 <==> visible && a.x <= x && x < a.x + a.width && a.y <= y && y < a.y + a.height
        }),
{
}

} // verus!
