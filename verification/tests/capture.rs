//! Captured frames and monitors.

use remote_desktop::capture::{
    check_display, enumerate_monitors, list_monitors, list_monitors_by_size, pack_frame, sort_monitors, Capture,
    MonitorRect, WgcCapture,
};

/// `WgcCapture::new` must fail cleanly (not panic) so an operator
/// who flips `[capture].capture_backend = "wgc"` ahead of the real
/// integration gets a clear error message rather than a crash.
#[test]
fn wgc_capture_constructor_returns_error() {
    match WgcCapture::new(0) {
        Ok(_) => panic!("WGC stub must report not-implemented, not succeed"),
        Err(e) => {
            let msg = e.message;
            assert!(
                msg.contains("WGC") && msg.contains("not implemented"),
                "unexpected error text: {msg}"
            );
        }
    }
}

/// A trait object can be built from `ScreenCapture` — pins the
/// Block-D `Capture` trait surface so a future change can't silently
/// break the abstraction.
#[test]
fn capture_trait_object_compiles() {
    // Compile-time only: we can't actually open a capturer in CI
    // (no display), so this just checks dyn-dispatch is available.
    let _accept = |_: &mut dyn Capture| {};
}

#[test]
fn padded_rows_are_packed() {
    // Two rows of one pixel, each filled up to eight bytes.
    let frame = [1u8, 2, 3, 4, 0, 0, 0, 0, 5, 6, 7, 8, 0, 0, 0, 0];
    let mut buf = vec![9u8; 3];
    pack_frame(&frame, 1, 2, &mut buf);
    assert_eq!(buf, [1, 2, 3, 4, 5, 6, 7, 8]);
    // Without padding the frame is taken as it is.
    pack_frame(&frame, 2, 2, &mut buf);
    assert_eq!(buf, frame);
}

#[test]
fn displays_out_of_range_are_named() {
    assert!(check_display(1, 2).is_ok());
    let e = check_display(3, 2).unwrap_err();
    assert_eq!(e.message, "Monitor index 3 out of range (found 2 monitors)");
}

fn rect(x: i32, y: i32, primary: bool) -> MonitorRect {
    MonitorRect { x, y, width: 1920, height: 1080, primary }
}

#[test]
fn the_primary_monitor_comes_first() {
    let v = vec![rect(1920, 0, false), rect(-1920, 0, false), rect(0, 0, true)];
    let sorted: Vec<i32> = sort_monitors(&v).iter().map(|m| m.x).collect();
    assert_eq!(sorted, [0, -1920, 1920]);
    let listed = list_monitors(&v, 2);
    assert_eq!(listed.len(), 2);
    assert_eq!((listed[0].index, listed[0].x, listed[0].primary), (0, 0, true));
    assert_eq!((listed[1].index, listed[1].x, listed[1].primary), (1, -1920, false));
}

#[test]
fn monitors_without_positions_are_listed_by_size() {
    let listed = list_monitors_by_size(&vec![(1920, 1080), (70000, 600)]);
    assert_eq!(listed.len(), 2);
    assert!(listed[0].primary && !listed[1].primary);
    assert_eq!((listed[1].index, listed[1].width, listed[1].height), (1, 4464, 600));
    assert_eq!((listed[1].x, listed[1].y), (0, 0));
}

#[test]
fn monitors_are_placed_where_places_are_known() {
    let v = vec![rect(1920, 0, false), rect(0, 0, true)];
    let sizes = vec![(800, 600)];
    assert_eq!(enumerate_monitors(Some(&v), Some(&sizes)), list_monitors(&v, 1));
    assert_eq!(enumerate_monitors(None, Some(&sizes)), list_monitors_by_size(&sizes));
    assert!(enumerate_monitors(Some(&v), None).is_empty());
    assert!(enumerate_monitors(None, None).is_empty());
}
