//! What is made of captured frames and of the list of monitors.

use crate::protocol::MonitorInfo;
use crate::text;
use crate::wire;
use vstd::prelude::*;
use vstd::slice::slice_subrange;

verus! {

/// Why a capture failed.
#[derive(Debug, Clone, PartialEq, Eq)]
pub struct CaptureError {
    /// What to tell the operator.
    pub message: String,
}

/// A source of frames, for backends to implement. A frame is BGRA, without
/// padding; one that is not ready yet is an error that the caller may retry.
pub trait Capture {
    /// Width and height of the last frame.
    fn dimensions(&self) -> (u32, u32);

    /// The next frame.
    fn next_frame(&mut self) -> Result<&[u8], CaptureError>;
}

/// Capture through Windows.Graphics.Capture, which is not there yet.
pub struct WgcCapture {
    _private: (),
}

/// Why Windows.Graphics.Capture cannot be used.
pub const WGC_MISSING: &'static str =
    "WGC capture backend is not implemented yet — \
             use `[capture].capture_backend = \"scrap\"` (the default)";

impl WgcCapture {
    /// Always fails, and says what to use instead.
    pub fn new(_monitor_index: usize) -> (r: Result<Self, CaptureError>)
        ensures
            r matches Err(e) && e.message@ == WGC_MISSING@,
    {
        Err(CaptureError { message: WGC_MISSING.to_owned() })
    }
}

impl Capture for WgcCapture {
    fn dimensions(&self) -> (r: (u32, u32))
        ensures
            r == (0u32, 0u32),
    {
        (0, 0)
    }

    fn next_frame(&mut self) -> (r: Result<&[u8], CaptureError>)
        ensures
            r matches Err(e) && e.message@ == WGC_MISSING@,
    {
        Err(CaptureError { message: WGC_MISSING.to_owned() })
    }
}

/// The message for a display that is not there.
pub open spec fn out_of_range_message(index: usize, count: usize) -> Seq<char> {
    "Monitor index "@ + text::decimal(index as nat) + " out of range (found "@ + text::decimal(
        count as nat,
    ) + " monitors)"@
}

/// Checks that display `index` is one of `count`.
pub fn check_display(index: usize, count: usize) -> (r: Result<(), CaptureError>)
    ensures
        match r {
            Ok(_) => index < count,
            Err(e) => index >= count && e.message@ == out_of_range_message(index, count),
        },
{
    if index < count {
        return Ok(());
    }
    let mut message = "Monitor index ".to_owned();
    text::push_decimal(&mut message, index as u64);
    text::push_text(&mut message, " out of range (found ");
    text::push_decimal(&mut message, count as u64);
    text::push_text(&mut message, " monitors)");
    proof {
        assert(message@ =~= out_of_range_message(index, count));
    }
    Err(CaptureError { message })
}

// ── Frames ─────────────────────────────────────────────────────────

/// Bytes from one row of a captured frame to the next.
pub open spec fn row_pitch(len: nat, width: u32, height: u32) -> int {
    if len == 4 * width * height {
        4 * width as int
    } else {
        len as int / height as int
    }
}

/// Whether a captured frame holds `height` rows of at least `width` pixels,
/// each as far behind the last one as the first is long.
pub open spec fn frame_fits(len: nat, width: u32, height: u32) -> bool {
    &&& 4 * width * height <= usize::MAX
    &&& 4 * width <= usize::MAX
    &&& len == 4 * width * height || (height > 0 && (height - 1) * row_pitch(len, width, height) + 4
        * width <= len)
}

/// The first `rows` rows of a captured frame, one behind the other, without
/// what fills the rows up.
pub open spec fn packed_rows(frame: Seq<u8>, pitch: int, row: int, rows: int) -> Seq<u8>
    decreases rows,
{
    if rows <= 0 {
        Seq::empty()
    } else {
        packed_rows(frame, pitch, row, rows - 1) + frame.subrange(
            (rows - 1) * pitch,
            (rows - 1) * pitch + row,
        )
    }
}

/// The pixels of a captured frame.
pub open spec fn packed_frame(frame: Seq<u8>, width: u32, height: u32) -> Seq<u8> {
    packed_rows(frame, row_pitch(frame.len(), width, height), 4 * width as int, height as int)
}

proof fn lemma_tight_rows(frame: Seq<u8>, row: int, rows: int)
    requires
        0 <= row,
        0 <= rows,
        rows * row <= frame.len(),
    ensures
        packed_rows(frame, row, row, rows) == frame.subrange(0, rows * row),
    decreases rows,
{
    if rows > 0 {
        assert((rows - 1) * row + row == rows * row) by (nonlinear_arith);
        assert(0 <= (rows - 1) * row) by (nonlinear_arith)
            requires
                rows >= 1,
                row >= 0,
        ;
        lemma_tight_rows(frame, row, rows - 1);
        assert(packed_rows(frame, row, row, rows) =~= frame.subrange(0, rows * row));
    } else {
        assert(rows * row == 0) by (nonlinear_arith)
            requires
                rows == 0,
        ;
        assert(packed_rows(frame, row, row, rows) =~= frame.subrange(0, 0));
    }
}

/// Takes the pixels of a captured frame into `buf`, in place of what it held.
pub fn pack_frame(frame: &[u8], width: u32, height: u32, buf: &mut Vec<u8>)
    requires
        frame_fits(frame@.len(), width, height),
    ensures
        final(buf)@ == packed_frame(frame@, width, height),
{
    let ghost row_len = 4 * width as int;
    proof {
        assert(4 * width * height == (4 * width) * height);
    }
    let row: usize = 4 * (width as usize);
    let size: usize = row * (height as usize);
    buf.clear();
    if frame.len() == size {
        wire::put_bytes(buf, frame);
        proof {
            assert(height * row_len == 4 * width * height) by (nonlinear_arith)
                requires
                    row_len == 4 * width,
            ;
            lemma_tight_rows(frame@, row_len, height as int);
            assert(frame@.subrange(0, frame@.len() as int) =~= frame@);
            assert(buf@ =~= frame@);
        }
    } else {
        let pitch: usize = frame.len() / (height as usize);
        let mut r: usize = 0;
        proof {
            assert(buf@ =~= packed_rows(frame@, pitch as int, row as int, 0));
        }
        while r < height as usize
            invariant
                r <= height,
                height > 0,
                row == 4 * width,
                (height - 1) * pitch + row <= frame@.len(),
                buf@ == packed_rows(frame@, pitch as int, row as int, r as int),
            decreases height - r,
        {
            proof {
                assert(r * pitch + row <= (height - 1) * pitch + row) by (nonlinear_arith)
                    requires
                        r <= height - 1,
                        pitch >= 0,
                ;
                assert(frame.len() == frame@.len());
                assert(0 <= r * pitch) by (nonlinear_arith)
                    requires
                        r >= 0,
                        pitch >= 0,
                ;
            }
            let start: usize = r * pitch;
            wire::put_bytes(buf, slice_subrange(frame, start, start + row));
            r = r + 1;
        }
    }
}

// ── Monitors ───────────────────────────────────────────────────────

/// Where a monitor lies on the virtual desktop, as the system reports it.
#[derive(Debug, Clone, Copy, PartialEq, Eq, Structural)]
pub struct MonitorRect {
    pub x: i32,
    pub y: i32,
    pub width: u32,
    pub height: u32,
    pub primary: bool,
}

/// Whether `a` comes before `b`: the primary monitor first, then from left to
/// right, then from top to bottom.
pub open spec fn monitor_before(a: MonitorRect, b: MonitorRect) -> bool {
    if a.primary != b.primary {
        a.primary
    } else if a.x != b.x {
        a.x < b.x
    } else {
        a.y < b.y
    }
}

/// Puts `m` into `v` behind everything that it does not come before.
pub open spec fn put_in_order(v: Seq<MonitorRect>, m: MonitorRect) -> Seq<MonitorRect>
    decreases v.len(),
{
    if v.len() > 0 && monitor_before(m, v.last()) {
        put_in_order(v.drop_last(), m).push(v.last())
    } else {
        v.push(m)
    }
}

/// The monitors in order; those that neither comes before stay as they were.
pub open spec fn in_order(v: Seq<MonitorRect>) -> Seq<MonitorRect>
    decreases v.len(),
{
    if v.len() == 0 {
        Seq::empty()
    } else {
        put_in_order(in_order(v.drop_last()), v.last())
    }
}

fn comes_first(a: &MonitorRect, b: &MonitorRect) -> (r: bool)
    ensures
        r == monitor_before(*a, *b),
{
    if a.primary != b.primary {
        a.primary
    } else if a.x != b.x {
        a.x < b.x
    } else {
        a.y < b.y
    }
}

/// Brings the monitors in order.
pub fn sort_monitors(v: &Vec<MonitorRect>) -> (r: Vec<MonitorRect>)
    ensures
        r@ == in_order(v@),
{
    let mut r: Vec<MonitorRect> = Vec::new();
    let mut i: usize = 0;
    proof {
        assert(r@ =~= in_order(v@.take(0)));
    }
    while i < v.len()
        invariant
            i <= v@.len(),
            r@ == in_order(v@.take(i as int)),
        decreases v@.len() - i,
    {
        let m = v[i];
        let ghost before = r@;
        let mut k: usize = r.len();
        proof {
            assert(before.take(k as int) =~= before);
            assert(before.skip(k as int) =~= Seq::<MonitorRect>::empty());
            assert(put_in_order(before, m) =~= put_in_order(before.take(k as int), m)
                + before.skip(k as int));
        }
        while k > 0 && comes_first(&m, &r[k - 1])
            invariant
                k <= r@.len(),
                r@ == before,
                put_in_order(before, m) == put_in_order(before.take(k as int), m) + before.skip(
                    k as int,
                ),
            decreases k,
        {
            proof {
                let head = before.take(k as int);
                assert(head.drop_last() =~= before.take(k - 1));
                assert(head.last() == before[k - 1]);
                assert(before.skip(k - 1) =~= seq![before[k - 1]] + before.skip(k as int));
                assert(put_in_order(head, m) == put_in_order(before.take(k - 1), m).push(
                    before[k - 1],
                ));
                assert(put_in_order(before.take(k - 1), m).push(before[k - 1]) + before.skip(
                    k as int,
                ) =~= put_in_order(before.take(k - 1), m) + before.skip(k - 1));
            }
            k = k - 1;
        }
        r.insert(k, m);
        proof {
            let head = before.take(k as int);
            assert(put_in_order(head, m) == head.push(m));
            assert(r@ =~= head.push(m) + before.skip(k as int));
            assert(v@.take(i + 1).drop_last() =~= v@.take(i as int));
            assert(v@.take(i + 1).last() == m);
        }
        i = i + 1;
    }
    proof {
        assert(v@.take(i as int) =~= v@);
    }
    r
}

/// A monitor for the client. Numbers that do not fit the wire are cut.
pub open spec fn monitor_info(r: MonitorRect, i: int) -> MonitorInfo {
    MonitorInfo {
        index: (i % 256) as u8,
        x: r.x as i16,
        y: r.y as i16,
        width: (r.width % 65536) as u16,
        height: (r.height % 65536) as u16,
        primary: r.primary,
    }
}

/// The smaller of two counts.
pub open spec fn smaller(a: nat, b: nat) -> nat {
    if a < b {
        a
    } else {
        b
    }
}

/// The monitors that the system reports, in order, as many as can be captured.
pub open spec fn placed_monitors(
    reported: Seq<MonitorRect>,
    capturable: nat,
) -> Seq<MonitorInfo> {
    Seq::new(
        smaller(in_order(reported).len(), capturable),
        |i: int| monitor_info(in_order(reported)[i], i),
    )
}

/// The monitors for the client: those that the system reports, in order, as
/// many as can be captured.
pub fn list_monitors(reported: &Vec<MonitorRect>, capturable: usize) -> (r: Vec<MonitorInfo>)
    ensures
        r@ == placed_monitors(reported@, capturable as nat),
{
    let sorted = sort_monitors(reported);
    let count: usize = if sorted.len() < capturable {
        sorted.len()
    } else {
        capturable
    };
    let mut r: Vec<MonitorInfo> = Vec::new();
    let mut i: usize = 0;
    while i < count
        invariant
            i <= count,
            count <= sorted@.len(),
            r@ == Seq::new(i as nat, |j: int| monitor_info(sorted@[j], j)),
        decreases count - i,
    {
        let m = sorted[i];
        r.push(
            MonitorInfo {
                index: (i % 256) as u8,
                x: m.x as i16,
                y: m.y as i16,
                width: (m.width % 65536) as u16,
                height: (m.height % 65536) as u16,
                primary: m.primary,
            },
        );
        i = i + 1;
        proof {
            assert(r@ =~= Seq::new(i as nat, |j: int| monitor_info(sorted@[j], j)));
        }
    }
    r
}

/// Monitors of which only the sizes are known: all at the origin, the first
/// one primary.
pub open spec fn sized_monitors(sizes: Seq<(usize, usize)>) -> Seq<MonitorInfo> {
    Seq::new(
        sizes.len(),
        |i: int|
            MonitorInfo {
                index: (i % 256) as u8,
                x: 0,
                y: 0,
                width: (sizes[i].0 % 65536) as u16,
                height: (sizes[i].1 % 65536) as u16,
                primary: i == 0,
            },
    )
}

/// The monitors for the client where only their sizes are known.
pub fn list_monitors_by_size(sizes: &Vec<(usize, usize)>) -> (r: Vec<MonitorInfo>)
    ensures
        r@ == sized_monitors(sizes@),
{
    let mut r: Vec<MonitorInfo> = Vec::new();
    let mut i: usize = 0;
    while i < sizes.len()
        invariant
            i <= sizes@.len(),
            r@.len() == i,
            forall|j: int|
                0 <= j < i ==> (#[trigger] r@[j]) == (MonitorInfo {
                    index: (j % 256) as u8,
                    x: 0,
                    y: 0,
                    width: (sizes@[j].0 % 65536) as u16,
                    height: (sizes@[j].1 % 65536) as u16,
                    primary: j == 0,
                }),
        decreases sizes@.len() - i,
    {
        let (w, h) = sizes[i];
        r.push(
            MonitorInfo {
                index: (i % 256) as u8,
                x: 0,
                y: 0,
                width: (w % 65536) as u16,
                height: (h % 65536) as u16,
                primary: i == 0,
            },
        );
        i = i + 1;
    }
    r
}

/// The monitors for the client. Where the system reports their places, those
/// are told, for as many as can be captured; elsewhere only their sizes are
/// known. `sizes` is `None` if the displays cannot be asked for.
pub fn enumerate_monitors(
    reported: Option<&Vec<MonitorRect>>,
    sizes: Option<&Vec<(usize, usize)>>,
) -> (r: Vec<MonitorInfo>)
    ensures
        r@ == (match (reported, sizes) {
            (Some(rects), Some(s)) => placed_monitors(rects@, s@.len()),
            (None, Some(s)) => sized_monitors(s@),
            (_, None) => Seq::<MonitorInfo>::empty(),
        }),
{
    match sizes {
        Some(s) => match reported {
            Some(rects) => list_monitors(rects, s.len()),
            None => list_monitors_by_size(s),
        },
        None => Vec::new(),
    }
}

// ── Laws ───────────────────────────────────────────────────────────

/// A packed frame has exactly the bytes of its pixels.
pub proof fn law_packed_frame_size(frame: Seq<u8>, width: u32, height: u32)
    requires
        frame_fits(frame.len(), width, height),
    ensures
        packed_frame(frame, width, height).len() == 4 * width * height,
{
    let pitch = row_pitch(frame.len(), width, height);
    let row = 4 * width as int;
    if frame.len() == 4 * width * height {
        assert(height * row == 4 * width * height) by (nonlinear_arith)
            requires
                row == 4 * width,
        ;
        lemma_tight_rows(frame, row, height as int);
    } else {
        assert(pitch >= 0) by (nonlinear_arith)
            requires
                pitch == frame.len() as int / height as int,
                height > 0,
        ;
        lemma_rows_len(frame, pitch, row, height as int, height as int);
        assert(height * row == 4 * width * height) by (nonlinear_arith)
            requires
                row == 4 * width,
        ;
    }
}

proof fn lemma_rows_len(frame: Seq<u8>, pitch: int, row: int, rows: int, height: int)
    requires
        0 <= row,
        0 <= pitch,
        0 <= rows <= height,
        height > 0,
        (height - 1) * pitch + row <= frame.len(),
    ensures
        packed_rows(frame, pitch, row, rows).len() == rows * row,
    decreases rows,
{
    if rows > 0 {
        lemma_rows_len(frame, pitch, row, rows - 1, height);
        assert(0 <= (rows - 1) * pitch <= (height - 1) * pitch) by (nonlinear_arith)
            requires
                1 <= rows <= height,
                pitch >= 0,
        ;
        assert((rows - 1) * row + row == rows * row) by (nonlinear_arith);
    } else {
        assert(rows * row == 0) by (nonlinear_arith)
            requires
                rows == 0,
        ;
    }
}

proof fn lemma_put_in_order(v: Seq<MonitorRect>, m: MonitorRect)
    requires
        forall|i: int, j: int|
            0 <= i < j < v.len() ==> !monitor_before(#[trigger] v[j], #[trigger] v[i]),
    ensures
        put_in_order(v, m).len() == v.len() + 1,
        forall|i: int, j: int|
            0 <= i < j < put_in_order(v, m).len() ==> !monitor_before(
                #[trigger] put_in_order(v, m)[j],
                #[trigger] put_in_order(v, m)[i],
            ),
        forall|i: int|
            0 <= i < put_in_order(v, m).len() ==> #[trigger] put_in_order(v, m)[i] == m
                || v.contains(put_in_order(v, m)[i]),
        put_in_order(v, m).to_multiset() == v.to_multiset().insert(m),
    decreases v.len(),
{
    broadcast use vstd::seq_lib::group_to_multiset_ensures;

    let w = put_in_order(v, m);
    if v.len() > 0 && monitor_before(m, v.last()) {
        let head = v.drop_last();
        let last = v[v.len() - 1];
        lemma_put_in_order(head, m);
        let u = put_in_order(head, m);
        assert(w =~= u.push(last));
        assert forall|i: int, j: int| 0 <= i < j < w.len() implies !monitor_before(
            #[trigger] w[j],
            #[trigger] w[i],
        ) by {
            if j == u.len() {
                if u[i] != m {
                    let k = choose|k: int| 0 <= k < head.len() && head[k] == u[i];
                    assert(v[k] == u[i]);
                }
            }
        }
        assert forall|i: int| 0 <= i < w.len() implies #[trigger] w[i] == m || v.contains(
            w[i],
        ) by {
            if i < u.len() {
                if u[i] != m {
                    let k = choose|k: int| 0 <= k < head.len() && head[k] == u[i];
                    assert(v[k] == u[i]);
                }
            } else {
                assert(v[v.len() - 1] == last);
            }
        }
        assert(v =~= head.push(last));
        assert(w.to_multiset() =~= v.to_multiset().insert(m));
    } else {
        assert forall|i: int, j: int| 0 <= i < j < w.len() implies !monitor_before(
            #[trigger] w[j],
            #[trigger] w[i],
        ) by {
            if j == v.len() && i < v.len() - 1 {
                assert(!monitor_before(v[v.len() - 1], v[i]));
            }
        }
        assert forall|i: int| 0 <= i < w.len() implies #[trigger] w[i] == m || v.contains(
            w[i],
        ) by {
            if i < v.len() {
                assert(v[i] == w[i]);
            }
        }
    }
}

/// The monitors come in order, and they are the ones reported.
pub proof fn law_monitors_in_order(v: Seq<MonitorRect>)
    ensures
        forall|i: int, j: int|
            0 <= i < j < in_order(v).len() ==> !monitor_before(
                #[trigger] in_order(v)[j],
                #[trigger] in_order(v)[i],
            ),
        in_order(v).to_multiset() == v.to_multiset(),
        in_order(v).len() == v.len(),
    decreases v.len(),
{
    broadcast use vstd::seq_lib::group_to_multiset_ensures;

    if v.len() > 0 {
        let head = v.drop_last();
        law_monitors_in_order(head);
        lemma_put_in_order(in_order(head), v.last());
        assert(v =~= head.push(v.last()));
    } else {
        assert(v =~= Seq::<MonitorRect>::empty());
    }
}

/// What a listed monitor says of its rectangle.
pub open spec fn rect_of(m: MonitorInfo) -> MonitorRect {
    MonitorRect {
        x: m.x as i32,
        y: m.y as i32,
        width: m.width as u32,
        height: m.height as u32,
        primary: m.primary,
    }
}

/// Whether the numbers of a rectangle fit the fields that tell of them.
pub open spec fn rect_fits(r: MonitorRect) -> bool {
    &&& -32768 <= r.x <= 32767
    &&& -32768 <= r.y <= 32767
    &&& r.width <= 65535
    &&& r.height <= 65535
}

/// A listed monitor tells of one of the reported rectangles field by field, if
/// its numbers fit; its index is its place in the list.
pub proof fn law_listed_monitor_tells_its_rectangle(
    reported: Seq<MonitorRect>,
    capturable: nat,
    i: int,
)
    requires
        0 <= i < placed_monitors(reported, capturable).len(),
    ensures
        ({
            let m = placed_monitors(reported, capturable)[i];
            let r = in_order(reported)[i];
            &&& reported.contains(r)
            &&& rect_fits(r) ==> m.x == r.x && m.y == r.y && m.width == r.width && m.height
                == r.height
            &&& m.primary == r.primary
            &&& m.width == r.width % 65536
            &&& m.height == r.height % 65536
            &&& i < 256 ==> m.index == i
        }),
{
    broadcast use vstd::seq_lib::group_to_multiset_ensures;

    law_monitors_in_order(reported);
    let r = in_order(reported)[i];
    assert(in_order(reported).contains(r));
    assert(in_order(reported).to_multiset().count(r) > 0);
    assert(reported.to_multiset().count(r) > 0);
}

/// When every reported monitor can be captured and its numbers fit, the list
/// tells of exactly the reported rectangles: none is lost, none is made up and
/// none is changed.
pub proof fn law_every_monitor_is_listed(reported: Seq<MonitorRect>, capturable: nat)
    requires
        reported.len() <= capturable,
        forall|k: int| 0 <= k < reported.len() ==> rect_fits(#[trigger] reported[k]),
    ensures
        placed_monitors(reported, capturable).map_values(|m: MonitorInfo| rect_of(m)).to_multiset()
            == reported.to_multiset(),
{
    law_monitors_in_order(reported);
    let listed = placed_monitors(reported, capturable);
    let rects = listed.map_values(|m: MonitorInfo| rect_of(m));
    assert(listed.len() == in_order(reported).len());
    assert forall|i: int| 0 <= i < rects.len() implies #[trigger] rects[i] == in_order(
        reported,
    )[i] by {
        law_listed_monitor_tells_its_rectangle(reported, capturable, i);
        let r = in_order(reported)[i];
        let k = choose|k: int| 0 <= k < reported.len() && reported[k] == r;
        assert(rect_fits(reported[k]));
    }
    assert(rects =~= in_order(reported));
}

/// A limit on how many can be captured shortens the list and changes nothing
/// else.
pub proof fn law_list_is_cut_short(reported: Seq<MonitorRect>, capturable: nat)
    requires
        capturable <= reported.len(),
    ensures
        placed_monitors(reported, capturable) == placed_monitors(reported, reported.len()).take(
            capturable as int,
        ),
{
    law_monitors_in_order(reported);
    assert(placed_monitors(reported, capturable) =~= placed_monitors(
        reported,
        reported.len(),
    ).take(capturable as int));
}

/// The primary monitor comes first; then the monitors come from left to right,
/// and those in one column from top to bottom.
pub proof fn law_monitor_order(reported: Seq<MonitorRect>, i: int, j: int)
    requires
        0 <= i < j < in_order(reported).len(),
    ensures
        ({
            let a = in_order(reported)[i];
            let b = in_order(reported)[j];
            &&& b.primary ==> a.primary
            &&& a.primary == b.primary ==> a.x <= b.x
            &&& a.primary == b.primary && a.x == b.x ==> a.y <= b.y
        }),
{
    law_monitors_in_order(reported);
    assert(!monitor_before(in_order(reported)[j], in_order(reported)[i]));
}

/// Monitors that are reported in order stay as they are, also those that lie at
/// the same place.
pub proof fn law_order_is_stable(reported: Seq<MonitorRect>)
    requires
        forall|i: int, j: int|
            #![trigger reported[i], reported[j]]
            0 <= i < j < reported.len() ==> {
                let a = reported[i];
                let b = reported[j];
                a.primary && !b.primary || a.primary == b.primary && (a.x < b.x || a.x == b.x && a.y
                    <= b.y)
            },
    ensures
        in_order(reported) == reported,
    decreases reported.len(),
{
    if reported.len() > 0 {
        let n = reported.len() - 1;
        let head = reported.drop_last();
        assert forall|i: int, j: int|
            #![trigger head[i], head[j]]
            0 <= i < j < head.len() implies {
            let a = head[i];
            let b = head[j];
            a.primary && !b.primary || a.primary == b.primary && (a.x < b.x || a.x == b.x && a.y
                <= b.y)
        } by {
            assert(head[i] == reported[i] && head[j] == reported[j]);
        }
        law_order_is_stable(head);
        if head.len() > 0 {
            assert(head.last() == reported[n - 1]);
            assert(!monitor_before(reported[n], reported[n - 1]));
        }
        assert(head.push(reported.last()) =~= reported);
    } else {
        assert(in_order(reported) =~= reported);
    }
}

/// Monitors known by their size alone keep it, stand at the origin, and the
/// first is the primary one.
pub proof fn law_sized_monitors(sizes: Seq<(usize, usize)>, i: int)
    requires
        0 <= i < sizes.len(),
    ensures
        ({
            let m = sized_monitors(sizes)[i];
            &&& sized_monitors(sizes).len() == sizes.len()
            &&& sizes[i].0 <= 65535 ==> m.width == sizes[i].0
            &&& sizes[i].1 <= 65535 ==> m.height == sizes[i].1
            &&& m.x == 0 && m.y == 0
            &&& m.primary <==> i == 0
            &&& i < 256 ==> m.index == i
        }),
{
}

proof fn lemma_rows_at(
    frame: Seq<u8>,
    pitch: int,
    row: int,
    rows: int,
    height: int,
    r: int,
    c: int,
)
    requires
        0 <= row,
        0 <= pitch,
        0 <= r < rows <= height,
        0 <= c < row,
        (height - 1) * pitch + row <= frame.len(),
    ensures
        packed_rows(frame, pitch, row, rows).len() == rows * row,
        0 <= r * row + c < rows * row,
        packed_rows(frame, pitch, row, rows)[r * row + c] == frame[r * pitch + c],
    decreases rows,
{
    lemma_rows_len(frame, pitch, row, rows, height);
    lemma_rows_len(frame, pitch, row, rows - 1, height);
    assert(0 <= r * row && r * row + row <= rows * row) by (nonlinear_arith)
        requires
            0 <= r < rows,
            row >= 0,
    ;
    assert(0 <= (rows - 1) * pitch <= (height - 1) * pitch) by (nonlinear_arith)
        requires
            1 <= rows <= height,
            pitch >= 0,
    ;
    if r < rows - 1 {
        lemma_rows_at(frame, pitch, row, rows - 1, height, r, c);
    }
}

/// Every pixel of a packed frame is the one that the captured frame has in the
/// same row and column: its rows are as long as its pixels, four bytes each,
/// while those of the captured frame share all its bytes evenly.
pub proof fn law_packed_pixels(frame: Seq<u8>, width: u32, height: u32, r: int, c: int)
    requires
        frame_fits(frame.len(), width, height),
        0 <= r < height,
        0 <= c < 4 * width,
    ensures
        0 <= r * (4 * width) + c < packed_frame(frame, width, height).len(),
        packed_frame(frame, width, height)[r * (4 * width) + c] == frame[r * (frame.len() as int
            / height as int) + c],
{
    let row = 4 * width as int;
    let h = height as int;
    let pitch = row_pitch(frame.len(), width, height);
    let len = frame.len() as int;
    if frame.len() == 4 * width * height {
        assert(4 * width * height == row * h) by (nonlinear_arith)
            requires
                row == 4 * width,
                h == height,
        ;
        assert(len / h == row) by (nonlinear_arith)
            requires
                len == row * h,
                h > 0,
        ;
        assert((h - 1) * row + row == row * h) by (nonlinear_arith);
    } else {
        assert(pitch >= 0) by (nonlinear_arith)
            requires
                pitch == len / h,
                len >= 0,
                h > 0,
        ;
    }
    assert(pitch == len / h);
    lemma_rows_at(frame, pitch, row, h, h, r, c);
}

/// A monitor that is out of range is reported with its index and the number of
/// those there are.
pub proof fn law_out_of_range_message(index: usize, count: usize)
    ensures
        out_of_range_message(index, count) == "Monitor index "@ + text::decimal(index as nat)
            + " out of range (found "@ + text::decimal(count as nat) + " monitors)"@,
{
}

} // verus!
