//! Mouse and keyboard input of the client, as the actions it stands for on the
//! server's desktop.

use crate::cursor;
use crate::protocol::ClientMessage;
use crate::text;
use vstd::prelude::*;

verus! {

/// A mouse button.
#[derive(Debug, Clone, Copy, PartialEq, Eq, Structural)]
pub enum MouseButton {
    Left,
    Middle,
    Right,
}

/// One thing to do on the desktop.
#[derive(Debug, Clone, PartialEq, Eq)]
pub enum InputAction {
    /// Move the pointer, to a place on the virtual desktop in units of a
    /// 65535th of its size.
    MoveTo { x: i32, y: i32 },
    Button { button: MouseButton, pressed: bool },
    /// Turn the wheel, by an amount in two's complement.
    Wheel { amount: u32 },
    /// A key by its virtual-key code.
    Key { code: u16, pressed: bool },
    /// A key by its scancode.
    Scancode { scancode: u16, extended: bool, pressed: bool },
    /// Switch the keyboard layout to the one with this name.
    Layout { name: String },
}

/// What an [`InputAction`] says.
pub enum ActionModel {
    MoveTo { x: i32, y: i32 },
    Button { button: MouseButton, pressed: bool },
    Wheel { amount: u32 },
    Key { code: u16, pressed: bool },
    Scancode { scancode: u16, extended: bool, pressed: bool },
    Layout { name: Seq<char> },
}

impl View for InputAction {
    type V = ActionModel;

    open spec fn view(&self) -> ActionModel {
        match self {
            InputAction::MoveTo { x, y } => ActionModel::MoveTo { x: *x, y: *y },
            InputAction::Button { button, pressed } => ActionModel::Button {
                button: *button,
                pressed: *pressed,
            },
            InputAction::Wheel { amount } => ActionModel::Wheel { amount: *amount },
            InputAction::Key { code, pressed } => ActionModel::Key {
                code: *code,
                pressed: *pressed,
            },
            InputAction::Scancode { scancode, extended, pressed } => ActionModel::Scancode {
                scancode: *scancode,
                extended: *extended,
                pressed: *pressed,
            },
            InputAction::Layout { name } => ActionModel::Layout { name: name@ },
        }
    }
}

/// What a list of actions says.
pub open spec fn action_models(v: Seq<InputAction>) -> Seq<ActionModel> {
    Seq::new(v.len(), |i: int| v[i]@)
}

/// The virtual desktop, which spans all monitors.
#[derive(Debug, Clone, Copy, PartialEq, Eq, Structural)]
pub struct VirtualScreen {
    pub x: i32,
    pub y: i32,
    pub width: i32,
    pub height: i32,
}

/// A size of at least one.
pub open spec fn extent(size: i32) -> int {
    if size < 1 {
        1
    } else {
        size as int
    }
}

/// Where a coordinate of a monitor lies, counted from the start of the virtual
/// desktop.
pub open spec fn desktop_offset(v: u16, origin: i32, size: u32, virt: i32) -> int {
    origin + cursor::clamped(v as int, size) - virt
}

/// A place on the virtual desktop in units of a 65535th of its size.
pub open spec fn normalised(offset: int, size: i32) -> int {
    (offset * 65535) / extent(size)
}

/// Whether working out a coordinate stays within 32 bits at each step.
pub open spec fn offset_fits(v: u16, origin: i32, size: u32, virt: i32) -> bool {
    &&& origin + cursor::clamped(v as int, size) <= i32::MAX
    &&& 0 <= desktop_offset(v, origin, size, virt)
    &&& desktop_offset(v, origin, size, virt) * 65535 <= u32::MAX
    &&& desktop_offset(v, origin, size, virt) <= i32::MAX
}

/// The wheel amount in two's complement.
pub open spec fn wheel_amount(delta: i16) -> u32 {
    if delta < 0 {
        (0x1_0000_0000 + delta) as u32
    } else {
        delta as u32
    }
}

/// The button with a number.
pub open spec fn button_numbered(n: u8) -> Option<MouseButton> {
    if n == 0 {
        Some(MouseButton::Left)
    } else if n == 1 {
        Some(MouseButton::Middle)
    } else if n == 2 {
        Some(MouseButton::Right)
    } else {
        None
    }
}

/// Turns the client's input into actions, with positions on one monitor.
#[derive(Debug, Clone, Copy)]
pub struct InputSimulator {
    monitor_x: i32,
    monitor_y: i32,
    monitor_w: u32,
    monitor_h: u32,
}

impl InputSimulator {
    /// The monitor that positions refer to.
    pub closed spec fn area(&self) -> cursor::MonitorArea {
        cursor::MonitorArea {
            x: self.monitor_x,
            y: self.monitor_y,
            width: self.monitor_w,
            height: self.monitor_h,
        }
    }

    /// A simulator for a monitor.
    pub fn new(monitor_x: i32, monitor_y: i32, monitor_w: u32, monitor_h: u32) -> (r: Self)
        ensures
            r.area() == (cursor::MonitorArea {
                x: monitor_x,
                y: monitor_y,
                width: monitor_w,
                height: monitor_h,
            }),
    {
        InputSimulator { monitor_x, monitor_y, monitor_w, monitor_h }
    }

    /// Whether a pointer position can be worked out.
    pub open spec fn position_fits(&self, x: u16, y: u16, screen: VirtualScreen) -> bool {
        &&& offset_fits(x, self.area().x, self.area().width, screen.x)
        &&& offset_fits(y, self.area().y, self.area().height, screen.y)
    }

    /// The action that moves the pointer to a position of the monitor.
    pub open spec fn move_action(&self, x: u16, y: u16, screen: VirtualScreen) -> ActionModel {
        ActionModel::MoveTo {
            x: normalised(
                desktop_offset(x, self.area().x, self.area().width, screen.x),
                screen.width,
            ) as u32 as i32,
            y: normalised(
                desktop_offset(y, self.area().y, self.area().height, screen.y),
                screen.height,
            ) as u32 as i32,
        }
    }

    /// Whether a message can be turned into actions.
    pub open spec fn can_handle(&self, msg: ClientMessage, screen: VirtualScreen) -> bool {
        match msg {
            ClientMessage::MouseMove { x, y } => self.position_fits(x, y, screen),
            ClientMessage::MouseButton { button, pressed, x, y } => self.position_fits(
                x,
                y,
                screen,
            ),
            _ => true,
        }
    }

    /// What a message stands for: pointer, buttons, wheel and keys become
    /// actions; the rest is none of the desktop's business.
    pub open spec fn actions(&self, msg: ClientMessage, screen: VirtualScreen) -> Seq<ActionModel> {
        match msg {
            ClientMessage::MouseMove { x, y } => seq![self.move_action(x, y, screen)],
            ClientMessage::MouseButton { button, pressed, x, y } => match button_numbered(button) {
                Some(b) => seq![
                    self.move_action(x, y, screen),
                    ActionModel::Button { button: b, pressed },
                ],
                None => seq![self.move_action(x, y, screen)],
            },
            ClientMessage::MouseScroll { delta_x, delta_y } => seq![
                ActionModel::Wheel { amount: wheel_amount(delta_y) },
            ],
            ClientMessage::KeyEvent { key_code, pressed } => seq![
                ActionModel::Key { code: key_code, pressed },
            ],
            ClientMessage::KeyScancode { scancode, extended, pressed } => seq![
                ActionModel::Scancode { scancode, extended, pressed },
            ],
            ClientMessage::SetKeyboardLayout { klid } => seq![
                ActionModel::Layout { name: text::hex_digits(klid as nat, 8) },
            ],
            _ => Seq::empty(),
        }
    }

    fn offset_of(v: u16, origin: i32, size: u32, virt: i32) -> (r: Option<u32>)
        ensures
            match r {
                Some(o) => offset_fits(v, origin, size, virt) && o == desktop_offset(
                    v,
                    origin,
                    size,
                    virt,
                ),
                None => !offset_fits(v, origin, size, virt),
            },
    {
        let kept: i64 = if size == 0 {
            0
        } else if (v as u32) < size {
            v as i64
        } else {
            size as i64 - 1
        };
        let place: i64 = origin as i64 + kept;
        let offset: i64 = place - virt as i64;
        if place > i32::MAX as i64 || offset < 0 || offset > i32::MAX as i64 || offset * 65535
            > u32::MAX as i64 {
            None
        } else {
            Some(offset as u32)
        }
    }

    fn scale(offset: u32, size: i32) -> (r: i32)
        requires
            offset * 65535 <= u32::MAX,
        ensures
            r == normalised(offset as int, size) as u32 as i32,
    {
        let size: u32 = if size < 1 {
            1
        } else {
            size as u32
        };
        ((offset * 65535) / size) as i32
    }

    /// Whether a message can be turned into actions.
    pub fn accepts(&self, msg: ClientMessage, screen: VirtualScreen) -> (r: bool)
        ensures
            r == self.can_handle(msg, screen),
    {
        match msg {
            ClientMessage::MouseMove { x, y } | ClientMessage::MouseButton { x, y, .. } => {
                Self::offset_of(x, self.monitor_x, self.monitor_w, screen.x).is_some()
                    && Self::offset_of(y, self.monitor_y, self.monitor_h, screen.y).is_some()
            },
            _ => true,
        }
    }

    fn mouse_move(&self, x: u16, y: u16, screen: VirtualScreen) -> (r: InputAction)
        requires
            self.position_fits(x, y, screen),
        ensures
            r@ == self.move_action(x, y, screen),
    {
        let off_x: u32 = match Self::offset_of(x, self.monitor_x, self.monitor_w, screen.x) {
            Some(o) => o,
            None => 0,
        };
        let off_y: u32 = match Self::offset_of(y, self.monitor_y, self.monitor_h, screen.y) {
            Some(o) => o,
            None => 0,
        };
        InputAction::MoveTo {
            x: Self::scale(off_x, screen.width),
            y: Self::scale(off_y, screen.height),
        }
    }

    fn mouse_button(button: u8, pressed: bool) -> (r: Option<InputAction>)
        ensures
            match r {
                Some(a) => button_numbered(button) is Some && a@ == (ActionModel::Button {
                    button: button_numbered(button)->0,
                    pressed,
                }),
                None => button_numbered(button) is None,
            },
    {
        let button = match button {
            0 => MouseButton::Left,
            1 => MouseButton::Middle,
            2 => MouseButton::Right,
            _ => return None,
        };
        Some(InputAction::Button { button, pressed })
    }

    fn mouse_scroll(delta_y: i16) -> (r: InputAction)
        ensures
            r@ == (ActionModel::Wheel { amount: wheel_amount(delta_y) }),
    {
        let amount: u32 = if delta_y < 0 {
            (0x1_0000_0000i64 + delta_y as i64) as u32
        } else {
            delta_y as u32
        };
        InputAction::Wheel { amount }
    }

    fn set_keyboard_layout(klid: u32) -> (r: InputAction)
        ensures
            r@ == (ActionModel::Layout { name: text::hex_digits(klid as nat, 8) }),
    {
        let mut name = String::new();
        text::push_hex(&mut name, klid, 8);
        proof {
            assert(name@ =~= text::hex_digits(klid as nat, 8));
        }
        InputAction::Layout { name }
    }

    /// Turns a message into the actions that it stands for.
    pub fn handle(&self, msg: ClientMessage, screen: VirtualScreen) -> (r: Vec<InputAction>)
        requires
            self.can_handle(msg, screen),
        ensures
            action_models(r@) == self.actions(msg, screen),
    {
        let mut r: Vec<InputAction> = Vec::new();
        match msg {
            ClientMessage::MouseMove { x, y } => r.push(self.mouse_move(x, y, screen)),
            ClientMessage::MouseButton { button, pressed, x, y } => {
                r.push(self.mouse_move(x, y, screen));
                if let Some(a) = Self::mouse_button(button, pressed) {
                    r.push(a);
                }
            },
            ClientMessage::MouseScroll { delta_x: _, delta_y } => r.push(
                Self::mouse_scroll(delta_y),
            ),
            ClientMessage::KeyEvent { key_code, pressed } => r.push(
                InputAction::Key { code: key_code, pressed },
            ),
            ClientMessage::KeyScancode { scancode, extended, pressed } => r.push(
                InputAction::Scancode { scancode, extended, pressed },
            ),
            ClientMessage::SetKeyboardLayout { klid } => r.push(Self::set_keyboard_layout(klid)),
            _ => {},
        }
        proof {
            assert(action_models(r@) =~= self.actions(msg, screen));
        }
        r
    }
}

/// The pointer stays on the monitor: a position that the client sends, however
/// large, lands inside it.
pub proof fn law_pointer_stays_on_monitor(v: u16, origin: i32, size: u32, virt: i32)
    requires
        size > 0,
    ensures
        origin <= virt + desktop_offset(v, origin, size, virt) < origin + size,
        v < size ==> virt + desktop_offset(v, origin, size, virt) == origin + v,
{
}

/// A place inside the virtual desktop is within the range of units.
pub proof fn law_normalised_range(offset: int, size: i32)
    requires
        0 <= offset < extent(size),
    ensures
        0 <= normalised(offset, size) < 65535,
{
    let e = extent(size);
    assert(0 <= (offset * 65535) / e < 65535) by (nonlinear_arith)
        requires
            0 <= offset < e,
            e >= 1,
    ;
}

/// A mouse button message first moves the pointer as a move message to the same
/// place would; then the button with its number (0 left, 1 middle, 2 right)
/// goes down if the message says so, and up if not. For another number nothing
/// follows the move.
pub proof fn law_buttons(
    sim: InputSimulator,
    button: u8,
    pressed: bool,
    x: u16,
    y: u16,
    screen: VirtualScreen,
)
    ensures
        ({
            let a = sim.actions(ClientMessage::MouseButton { button, pressed, x, y }, screen);
            let moved = sim.actions(ClientMessage::MouseMove { x, y }, screen);
            &&& moved.len() == 1
            &&& a.take(1) == moved
            &&& button == 0 ==> a.len() == 2 && a.last() == (ActionModel::Button {
                button: MouseButton::Left,
                pressed,
            })
            &&& button == 1 ==> a.len() == 2 && a.last() == (ActionModel::Button {
                button: MouseButton::Middle,
                pressed,
            })
            &&& button == 2 ==> a.len() == 2 && a.last() == (ActionModel::Button {
                button: MouseButton::Right,
                pressed,
            })
            &&& button > 2 ==> a == moved
        }),
{
    let a = sim.actions(ClientMessage::MouseButton { button, pressed, x, y }, screen);
    let moved = sim.actions(ClientMessage::MouseMove { x, y }, screen);
    assert(a.take(1) =~= moved);
}

/// A key message does one thing: the key it names, by its code or its scancode,
/// goes down if the message says so, and up if not.
pub proof fn law_keys(
    sim: InputSimulator,
    code: u16,
    extended: bool,
    pressed: bool,
    screen: VirtualScreen,
)
    ensures
        sim.actions(ClientMessage::KeyEvent { key_code: code, pressed }, screen) == seq![
            ActionModel::Key { code, pressed },
        ],
        sim.actions(ClientMessage::KeyScancode { scancode: code, extended, pressed }, screen)
            == seq![ActionModel::Scancode { scancode: code, extended, pressed }],
{
}

/// A move puts the pointer where the message says, counted from the corner of
/// the monitor, in units of a 65535th of the virtual desktop, rounded down:
/// the horizontal place from `x` and the desktop's width, the vertical one from
/// `y` and its height.
pub proof fn law_moves(sim: InputSimulator, x: u16, y: u16, screen: VirtualScreen)
    requires
        x < sim.area().width,
        y < sim.area().height,
        0 <= sim.area().x + x - screen.x < screen.width,
        0 <= sim.area().y + y - screen.y < screen.height,
    ensures
        ({
            let a = sim.actions(ClientMessage::MouseMove { x, y }, screen)[0];
            &&& a is MoveTo
            &&& a->x * screen.width <= (sim.area().x + x - screen.x) * 65535
            &&& (sim.area().x + x - screen.x) * 65535 < (a->x + 1) * screen.width
            &&& a->y * screen.height <= (sim.area().y + y - screen.y) * 65535
            &&& (sim.area().y + y - screen.y) * 65535 < (a->y + 1) * screen.height
        }),
{
    let ox = sim.area().x + x - screen.x;
    let oy = sim.area().y + y - screen.y;
    law_normalised_range(ox, screen.width);
    law_normalised_range(oy, screen.height);
    let w = screen.width as int;
    let h = screen.height as int;
    let nx = ox * 65535;
    let ny = oy * 65535;
    assert((nx / w) * w <= nx < (nx / w + 1) * w) by (nonlinear_arith)
        requires
            w >= 1,
    ;
    assert((ny / h) * h <= ny < (ny / h + 1) * h) by (nonlinear_arith)
        requires
            h >= 1,
    ;
}

/// A place beyond the monitor counts as its last column or row.
pub proof fn law_moves_end_at_the_edge(sim: InputSimulator, x: u16, y: u16, screen: VirtualScreen)
    requires
        0 < sim.area().width <= 65536,
        0 < sim.area().height <= 65536,
    ensures
        x >= sim.area().width ==> sim.actions(ClientMessage::MouseMove { x, y }, screen)
            == sim.actions(
            ClientMessage::MouseMove { x: (sim.area().width - 1) as u16, y },
            screen,
        ),
        y >= sim.area().height ==> sim.actions(ClientMessage::MouseMove { x, y }, screen)
            == sim.actions(
            ClientMessage::MouseMove { x, y: (sim.area().height - 1) as u16 },
            screen,
        ),
{
}

/// The wheel turns by the vertical distance, in two's complement of 32 bits;
/// the horizontal one does not matter.
pub proof fn law_wheel(sim: InputSimulator, dx: i16, dy: i16, screen: VirtualScreen)
    ensures
        ({
            let a = sim.actions(ClientMessage::MouseScroll { delta_x: dx, delta_y: dy }, screen);
            &&& a.len() == 1
            &&& a[0] is Wheel
            &&& a[0]->amount == dy as int % 0x1_0000_0000
        }),
{
}

/// A keyboard layout is switched to by its name: its number in eight upper-case
/// hexadecimal digits.
pub proof fn law_layout(sim: InputSimulator, klid: u32, screen: VirtualScreen)
    ensures
        ({
            let a = sim.actions(ClientMessage::SetKeyboardLayout { klid }, screen);
            &&& a.len() == 1
            &&& a[0] is Layout
            &&& a[0]->name.len() == 8
            &&& text::hex_value(a[0]->name) == klid
        }),
{
    reveal_with_fuel(text::pow16, 9);
    assert(text::pow16(8) == 0x1_0000_0000);
    text::law_hex_spells(klid as nat, 8);
}

/// Messages that are not about input do nothing here.
pub proof fn law_other_messages_are_quiet(
    sim: InputSimulator,
    index: u8,
    ts: u64,
    screen: VirtualScreen,
)
    ensures
        sim.actions(ClientMessage::ClientReady, screen).len() == 0,
        sim.actions(ClientMessage::SelectMonitor { index }, screen).len() == 0,
        sim.actions(ClientMessage::SelectAudio { index }, screen).len() == 0,
        sim.actions(ClientMessage::SelectEncoder { index }, screen).len() == 0,
        sim.actions(ClientMessage::SelectProfile { index }, screen).len() == 0,
        sim.actions(ClientMessage::Ping { client_ts_us: ts }, screen).len() == 0,
{
}

/// A place inside both the monitor and a virtual desktop of up to 65536 pixels
/// a side is never refused.
pub proof fn law_places_on_the_desktop_are_accepted(
    sim: InputSimulator,
    button: u8,
    pressed: bool,
    x: u16,
    y: u16,
    screen: VirtualScreen,
)
    requires
        x < sim.area().width,
        y < sim.area().height,
        0 <= sim.area().x + x - screen.x < screen.width <= 65536,
        0 <= sim.area().y + y - screen.y < screen.height <= 65536,
        sim.area().x + x <= i32::MAX,
        sim.area().y + y <= i32::MAX,
    ensures
        sim.can_handle(ClientMessage::MouseMove { x, y }, screen),
        sim.can_handle(ClientMessage::MouseButton { button, pressed, x, y }, screen),
{
}

} // verus!
