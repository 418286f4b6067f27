//! Cursor and input on the virtual desktop.

use remote_desktop::cursor::{
    cursor_to_monitor_relative, get_cursor_position, CursorTracker, MonitorArea, POLL_INTERVAL_US,
};
use remote_desktop::input::{InputAction, InputSimulator, MouseButton, VirtualScreen};
use remote_desktop::protocol::{ClientMessage, ServerMessage};

const SCREEN: VirtualScreen = VirtualScreen { x: -1920, y: 0, width: 3840, height: 1080 };

#[test]
fn cursor_is_relative_to_the_monitor() {
    let area = MonitorArea { x: 100, y: 50, width: 200, height: 100 };
    assert_eq!(cursor_to_monitor_relative(150, 60, true, area), (50, 10, true));
    assert_eq!(cursor_to_monitor_relative(150, 60, false, area), (50, 10, false));
    // Outside: kept at the edge and hidden.
    assert_eq!(cursor_to_monitor_relative(10, 500, true, area), (0, 99, false));
    assert_eq!(cursor_to_monitor_relative(300, 60, true, area), (199, 10, false));
    let empty = MonitorArea { x: 0, y: 0, width: 0, height: 0 };
    assert_eq!(cursor_to_monitor_relative(5, 5, true, empty), (0, 0, false));
}

#[test]
fn reported_positions_fit_the_wire() {
    assert_eq!(get_cursor_position(Some((-5, 70000, true))), (0, 4464, true));
    assert_eq!(get_cursor_position(None), (0, 0, false));
    assert_eq!(POLL_INTERVAL_US, 1_000_000 / 120);
}

#[test]
fn cursor_is_sent_when_it_changes() {
    let mut t = CursorTracker::new();
    assert!(matches!(
        t.update((1, 2, true)),
        Some(ServerMessage::CursorInfo { x: 1, y: 2, visible: true })
    ));
    assert!(t.update((1, 2, true)).is_none());
    assert!(matches!(
        t.update((1, 2, false)),
        Some(ServerMessage::CursorInfo { visible: false, .. })
    ));
    assert!(CursorTracker::new().update((u16::MAX, u16::MAX, false)).is_none());
}

#[test]
fn pointer_is_kept_on_the_monitor() {
    let sim = InputSimulator::new(0, 0, 1920, 1080);
    let at = |x: u16, y: u16| sim.handle(ClientMessage::MouseMove { x, y }, SCREEN);
    assert_eq!(at(0, 0), [InputAction::MoveTo { x: 32767, y: 0 }]);
    assert_eq!(at(u16::MAX, u16::MAX), at(1919, 1079));
    assert_eq!(at(1919, 1079), [InputAction::MoveTo { x: 65517, y: 65474 }]);
}

#[test]
fn buttons_move_first() {
    let sim = InputSimulator::new(-1920, 0, 1920, 1080);
    let press = |button: u8| {
        sim.handle(ClientMessage::MouseButton { button, pressed: true, x: 0, y: 0 }, SCREEN)
    };
    let moved = InputAction::MoveTo { x: 0, y: 0 };
    for (n, b) in [(0, MouseButton::Left), (1, MouseButton::Middle), (2, MouseButton::Right)] {
        assert_eq!(
            press(n),
            [moved.clone(), InputAction::Button { button: b, pressed: true }]
        );
    }
    assert_eq!(press(3), [moved]);
}

#[test]
fn wheel_keys_and_layouts() {
    let sim = InputSimulator::new(0, 0, 1, 1);
    let of = |m: ClientMessage| sim.handle(m, SCREEN);
    assert_eq!(
        of(ClientMessage::MouseScroll { delta_x: 5, delta_y: -120 }),
        [InputAction::Wheel { amount: 0xFFFF_FF88 }]
    );
    assert_eq!(
        of(ClientMessage::MouseScroll { delta_x: 0, delta_y: 120 }),
        [InputAction::Wheel { amount: 120 }]
    );
    assert_eq!(
        of(ClientMessage::KeyEvent { key_code: 0x41, pressed: false }),
        [InputAction::Key { code: 0x41, pressed: false }]
    );
    assert_eq!(
        of(ClientMessage::KeyScancode { scancode: 0x48, extended: true, pressed: true }),
        [InputAction::Scancode { scancode: 0x48, extended: true, pressed: true }]
    );
    assert_eq!(
        of(ClientMessage::SetKeyboardLayout { klid: 0x0000_0407 }),
        [InputAction::Layout { name: "00000407".to_string() }]
    );
    assert_eq!(
        of(ClientMessage::SetKeyboardLayout { klid: 0xF003_0C0A }),
        [InputAction::Layout { name: "F0030C0A".to_string() }]
    );
}

#[test]
fn positions_that_do_not_fit_are_refused() {
    let sim = InputSimulator::new(0, 0, 1920, 1080);
    let mv = ClientMessage::MouseMove { x: 0, y: 0 };
    assert!(sim.accepts(mv, SCREEN));
    assert!(!sim.accepts(mv, VirtualScreen { x: 1, ..SCREEN }));
    assert!(!sim.accepts(mv, VirtualScreen { x: -70_000, ..SCREEN }));
    assert!(sim.accepts(ClientMessage::ClientReady, VirtualScreen { x: 1, ..SCREEN }));
}
