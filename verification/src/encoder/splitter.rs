//! Access-unit splitters: each buffers an encoder's output stream and hands
//! out one frame per complete access unit.

use super::{EncodedFrame, FrameModel};
use vstd::prelude::*;
use vstd::slice::slice_subrange;

verus! {

/// `memchr::memchr` returns the index of the first byte of `haystack` that
/// equals `needle`, and `None` when there is no such byte.
pub assume_specification[ memchr::memchr ](needle: u8, haystack: &[u8]) -> (found: Option<usize>)
    ensures
        match found {
            Some(i) => {
                &&& i < haystack@.len()
                &&& haystack@[i as int] == needle
                &&& forall|j: int| 0 <= j < i ==> haystack@[j] != needle
            },
            None => forall|j: int| 0 <= j < haystack@.len() ==> haystack@[j] != needle,
        },
;

/// The frame that carries the access unit `unit`: a zeroed wire header, then
/// the unit itself.
pub open spec fn frame_of(unit: Seq<u8>, is_keyframe: bool) -> FrameModel {
    FrameModel {
        data: Seq::new(EncodedFrame::HEADER_LEN as nat, |i: int| 0u8) + unit,
        is_keyframe,
    }
}

/// The access unit that a frame carries behind its wire header.
pub open spec fn payload_of(frame: FrameModel) -> Seq<u8> {
    frame.data.subrange(EncodedFrame::HEADER_LEN as int, frame.data.len() as int)
}

/// The values of a list of frames.
pub open spec fn frame_models(frames: Seq<EncodedFrame>) -> Seq<FrameModel> {
    Seq::new(frames.len(), |i: int| frames[i]@)
}

/// The access units of a list of frames, one behind the other.
pub open spec fn payloads(frames: Seq<FrameModel>) -> Seq<u8>
    decreases frames.len(),
{
    if frames.len() == 0 {
        Seq::empty()
    } else {
        payloads(frames.drop_last()) + payload_of(frames.last())
    }
}

/// Codec-agnostic access-unit splitter.
pub trait FrameSplitter: Send {
    /// The bytes received and not yet handed out.
    spec fn pending(&self) -> Seq<u8>;

    /// The internal invariant.
    spec fn well_formed(&self) -> bool;

    /// The frames that are complete in the stream `s`.
    spec fn complete_frames(&self, s: Seq<u8>) -> Seq<FrameModel>;

    /// What stays buffered of the stream `s` once its complete frames are out.
    spec fn remainder(&self, s: Seq<u8>) -> Seq<u8>;

    /// Appends `data` to the buffered bytes and every access unit that is now
    /// complete to `out`.
    fn push(&mut self, data: &[u8], out: &mut Vec<EncodedFrame>)
        requires
            old(self).well_formed(),
            old(self).pending().len() * 2 + data@.len() + EncodedFrame::HEADER_LEN <= usize::MAX,
        ensures
            final(self).well_formed(),
            frame_models(final(out)@) == frame_models(old(out)@) + old(self).complete_frames(
                old(self).pending() + data@,
            ),
            final(self).pending() == old(self).remainder(old(self).pending() + data@),
    ;

    /// Number of bytes buffered.
    fn buffered_bytes(&self) -> (n: usize)
        requires
            self.well_formed(),
        ensures
            n == self.pending().len(),
    ;

    /// Forgets everything that is buffered.
    fn reset(&mut self)
        ensures
            final(self).well_formed(),
            final(self).pending() == Seq::<u8>::empty(),
    ;
}

/// The stream buffer shared by the splitters: bytes before `read_pos` have
/// been handed out and are dropped lazily.
struct StreamBuffer {
    buf: Vec<u8>,
    read_pos: usize,
}

impl StreamBuffer {
    /// At most half of the buffer is dead.
    closed spec fn well_formed(&self) -> bool {
        self.read_pos * 2 <= self.buf@.len()
    }

    closed spec fn live(&self) -> Seq<u8> {
        self.buf@.subrange(self.read_pos as int, self.buf@.len() as int)
    }

    fn new() -> (b: Self)
        ensures
            b.well_formed(),
            b.live() == Seq::<u8>::empty(),
    {
        StreamBuffer { buf: Vec::with_capacity(256 * 1024), read_pos: 0 }
    }

    fn len(&self) -> (n: usize)
        requires
            self.well_formed(),
        ensures
            n == self.live().len(),
    {
        self.buf.len() - self.read_pos
    }

    fn bytes(&self) -> (d: &[u8])
        requires
            self.well_formed(),
        ensures
            d@ == self.live(),
    {
        slice_subrange(self.buf.as_slice(), self.read_pos, self.buf.len())
    }

    fn clear(&mut self)
        ensures
            final(self).well_formed(),
            final(self).live() == Seq::<u8>::empty(),
    {
        self.buf.clear();
        self.read_pos = 0;
    }

    fn extend(&mut self, data: &[u8])
        requires
            old(self).well_formed(),
            old(self).live().len() * 2 + data@.len() <= usize::MAX,
        ensures
            final(self).well_formed(),
            final(self).live() == old(self).live() + data@,
    {
        self.buf.extend_from_slice(data);
        proof {
            assert(self.buf@ =~= old(self).buf@ + data@);
            assert(self.live() =~= old(self).live() + data@);
        }
    }

    /// Marks the first `n` live bytes as handed out, and compacts the buffer
    /// if more than half of it is then dead.
    fn consume(&mut self, n: usize)
        requires
            old(self).well_formed(),
            n <= old(self).live().len(),
        ensures
            final(self).well_formed(),
            final(self).live() == old(self).live().subrange(n as int, old(self).live().len() as int),
    {
        let total: usize = self.buf.len();
        let start: usize = self.read_pos + n;
        let live: usize = total - start;
        if start > live {
            let kept = self.buf.split_off(start);
            self.buf = kept;
            self.read_pos = 0;
        } else {
            self.read_pos = start;
        }
        proof {
            assert(self.live() =~= old(self).live().subrange(
                n as int,
                old(self).live().len() as int,
            ));
        }
    }
}

/// Builds the frame that carries `unit`.
fn make_frame(unit: &[u8], is_keyframe: bool) -> (f: EncodedFrame)
    requires
        unit@.len() + EncodedFrame::HEADER_LEN <= usize::MAX,
    ensures
        f@ == frame_of(unit@, is_keyframe),
{
    let mut data: Vec<u8> = Vec::with_capacity(EncodedFrame::HEADER_LEN + unit.len());
    data.resize(EncodedFrame::HEADER_LEN, 0);
    data.extend_from_slice(unit);
    proof {
        assert(data@ =~= frame_of(unit@, is_keyframe).data);
    }
    EncodedFrame { data, is_keyframe }
}

// ── Annex-B streams (H.264 and HEVC) ───────────────────────────────

/// Which NAL unit header an Annex-B stream uses.
#[derive(Clone, Copy, PartialEq, Eq, Structural)]
pub enum NalSyntax {
    H264,
    Hevc,
}

/// The NAL unit type in the first header byte `b`.
pub open spec fn nal_type_of(k: NalSyntax, b: u8) -> u8 {
    match k {
        NalSyntax::H264 => b & 0x1F,
        NalSyntax::Hevc => (b >> 1) & 0x3F,
    }
}

/// Whether `b` opens an access unit delimiter.
pub open spec fn is_delimiter(k: NalSyntax, b: u8) -> bool {
    match k {
        NalSyntax::H264 => nal_type_of(k, b) == 9,
        NalSyntax::Hevc => nal_type_of(k, b) == 35,
    }
}

/// Whether `b` opens a slice of a picture that can be decoded on its own: an
/// IDR slice in H.264, any IRAP picture in HEVC.
pub open spec fn is_key_slice(k: NalSyntax, b: u8) -> bool {
    match k {
        NalSyntax::H264 => nal_type_of(k, b) == 5,
        NalSyntax::Hevc => 16 <= nal_type_of(k, b) <= 23,
    }
}

/// Whether a start code (`00 00 01`, or `00 00 00 01`) followed by an access
/// unit delimiter stands at `i`.
pub open spec fn delimiter_at(k: NalSyntax, s: Seq<u8>, i: int) -> bool {
    &&& 0 <= i
    &&& i + 3 < s.len()
    &&& s[i] == 0
    &&& s[i + 1] == 0
    &&& {
        ||| i + 4 < s.len() && s[i + 2] == 0 && s[i + 3] == 1 && is_delimiter(k, s[i + 4])
        ||| s[i + 2] == 1 && is_delimiter(k, s[i + 3])
    }
}

/// The first delimiter at or after `from`.
pub open spec fn first_delimiter(k: NalSyntax, s: Seq<u8>, from: int) -> Option<int>
    decreases s.len() - from,
{
    if from + 3 >= s.len() {
        None
    } else if delimiter_at(k, s, from) {
        Some(from)
    } else {
        first_delimiter(k, s, from + 1)
    }
}

/// How many bytes of `s` stand at or behind `from`.
pub open spec fn left_of(s: Seq<u8>, from: int) -> int {
    if from < s.len() {
        s.len() - from
    } else {
        0
    }
}

/// Where the delimiters of `s` stand, from `from` on. A delimiter is at least
/// five bytes long, so the search goes on five bytes behind each one.
pub open spec fn delimiters(k: NalSyntax, s: Seq<u8>, from: int) -> Seq<int>
    decreases left_of(s, from),
{
    match first_delimiter(k, s, from) {
        None => Seq::empty(),
        Some(p) => if p < from {
            Seq::empty()
        } else {
            seq![p] + delimiters(k, s, p + 5)
        },
    }
}

/// Whether the access unit `unit` holds a key slice behind a start code.
pub open spec fn holds_key_slice(k: NalSyntax, unit: Seq<u8>) -> bool {
    exists|i: int| #[trigger] key_slice_at(k, unit, i)
}

/// Whether a three-byte start code and a key slice stand at `i`. (A four-byte
/// start code ends in a three-byte one.)
pub open spec fn key_slice_at(k: NalSyntax, s: Seq<u8>, i: int) -> bool {
    &&& 0 <= i
    &&& i + 3 < s.len()
    &&& s[i] == 0
    &&& s[i + 1] == 0
    &&& s[i + 2] == 1
    &&& is_key_slice(k, s[i + 3])
}

/// The frame between two delimiters of `s`.
pub open spec fn annexb_frame(k: NalSyntax, s: Seq<u8>, start: int, end: int) -> FrameModel {
    frame_of(s.subrange(start, end), holds_key_slice(k, s.subrange(start, end)))
}

/// The frames between the delimiters `at` of `s`.
pub open spec fn frames_between(k: NalSyntax, s: Seq<u8>, at: Seq<int>) -> Seq<FrameModel> {
    Seq::new(
        if at.len() == 0 {
            0
        } else {
            (at.len() - 1) as nat
        },
        |i: int| annexb_frame(k, s, at[i], at[i + 1]),
    )
}

/// The complete frames of an Annex-B stream: one per pair of neighbouring
/// delimiters.
pub open spec fn annexb_frames(k: NalSyntax, s: Seq<u8>) -> Seq<FrameModel> {
    frames_between(k, s, delimiters(k, s, 0))
}

/// What an Annex-B stream leaves buffered: everything from its last delimiter
/// on, or all of it while it has none.
pub open spec fn annexb_remainder(k: NalSyntax, s: Seq<u8>) -> Seq<u8> {
    let at = delimiters(k, s, 0);
    if at.len() == 0 {
        s
    } else {
        s.subrange(at.last(), s.len() as int)
    }
}

proof fn lemma_first_delimiter(k: NalSyntax, s: Seq<u8>, from: int)
    requires
        0 <= from,
    ensures
        match first_delimiter(k, s, from) {
            Some(p) => {
                &&& from <= p
                &&& delimiter_at(k, s, p)
                &&& forall|j: int| from <= j < p ==> !delimiter_at(k, s, j)
            },
            None => forall|j: int| from <= j ==> !delimiter_at(k, s, j),
        },
    decreases s.len() - from,
{
    if from + 3 >= s.len() {
    } else if delimiter_at(k, s, from) {
    } else {
        lemma_first_delimiter(k, s, from + 1);
    }
}

/// `first_delimiter` is the only value with the property it is meant to have.
proof fn lemma_first_delimiter_unique(k: NalSyntax, s: Seq<u8>, from: int, p: int)
    requires
        0 <= from <= p,
        delimiter_at(k, s, p),
        forall|j: int| from <= j < p ==> !delimiter_at(k, s, j),
    ensures
        first_delimiter(k, s, from) == Some(p),
{
    lemma_first_delimiter(k, s, from);
}

proof fn lemma_no_delimiter(k: NalSyntax, s: Seq<u8>, from: int)
    requires
        0 <= from,
        forall|j: int| from <= j ==> !delimiter_at(k, s, j),
    ensures
        first_delimiter(k, s, from) is None,
{
    lemma_first_delimiter(k, s, from);
}

/// Delimiters stand in order, at least five bytes apart, and inside `s`.
proof fn lemma_delimiters(k: NalSyntax, s: Seq<u8>, from: int)
    requires
        0 <= from,
    ensures
        forall|i: int|
            0 <= i < delimiters(k, s, from).len() ==> from <= #[trigger] delimiters(k, s, from)[i]
                && delimiter_at(k, s, delimiters(k, s, from)[i]),
        forall|i: int, j: int|
            0 <= i < j < delimiters(k, s, from).len() ==> #[trigger] delimiters(k, s, from)[i] + 5
                <= #[trigger] delimiters(k, s, from)[j],
    decreases left_of(s, from),
{
    lemma_first_delimiter(k, s, from);
    if let Some(p) = first_delimiter(k, s, from) {
        lemma_delimiters(k, s, p + 5);
        let rest = delimiters(k, s, p + 5);
        let all = delimiters(k, s, from);
        assert(all =~= seq![p] + rest);
        assert forall|i: int| 0 <= i < all.len() implies from <= #[trigger] all[i] && delimiter_at(
            k,
            s,
            all[i],
        ) by {
            if i > 0 {
                assert(all[i] == rest[i - 1]);
            }
        }
        assert forall|i: int, j: int| 0 <= i < j < all.len() implies #[trigger] all[i] + 5
            <= #[trigger] all[j] by {
            assert(all[j] == rest[j - 1]);
            if i > 0 {
                assert(all[i] == rest[i - 1]);
            }
        }
    }
}

fn nal_type(k: NalSyntax, b: u8) -> (t: u8)
    ensures
        t == nal_type_of(k, b),
{
    match k {
        NalSyntax::H264 => b & 0x1F,
        NalSyntax::Hevc => (b >> 1) & 0x3F,
    }
}

fn opens_delimiter(k: NalSyntax, b: u8) -> (r: bool)
    ensures
        r == is_delimiter(k, b),
{
    match k {
        NalSyntax::H264 => nal_type(k, b) == 9,
        NalSyntax::Hevc => nal_type(k, b) == 35,
    }
}

fn opens_key_slice(k: NalSyntax, b: u8) -> (r: bool)
    ensures
        r == is_key_slice(k, b),
{
    match k {
        NalSyntax::H264 => nal_type(k, b) == 5,
        NalSyntax::Hevc => {
            let t: u8 = nal_type(k, b);
            16 <= t && t <= 23
        },
    }
}

/// Finds the first delimiter of `d` at or after `from`.
fn find_delimiter(k: NalSyntax, d: &[u8], from: usize) -> (r: Option<usize>)
    requires
        from <= d@.len(),
    ensures
        match r {
            Some(p) => first_delimiter(k, d@, from as int) == Some(p as int),
            None => first_delimiter(k, d@, from as int) is None,
        },
{
    if d.len() < 4 {
        return None;
    }
    let end: usize = d.len() - 3;
    let mut i: usize = from;
    while i < end
        invariant
            from <= i,
            i <= d@.len(),
            d@.len() >= 4,
            end == d@.len() - 3,
            forall|j: int| from <= j < i ==> !delimiter_at(k, d@, j),
        decreases end - i,
    {
        let window = slice_subrange(d, i, end);
        let rel: usize = match memchr::memchr(0, window) {
            Some(rel) => rel,
            None => {
                proof {
                    assert forall|j: int| from <= j implies !delimiter_at(k, d@, j) by {
                        if i <= j && j < end {
                            assert(window@[j - i] == d@[j]);
                        }
                    }
                    lemma_no_delimiter(k, d@, from as int);
                }
                return None;
            },
        };
        proof {
            assert forall|j: int| from <= j < i + rel implies !delimiter_at(k, d@, j) by {
                if i <= j {
                    assert(window@[j - i] == d@[j]);
                }
            }
            assert(window@[rel as int] == d@[i + rel]);
        }
        i = i + rel;
        if d[i + 1] == 0 {
            if i + 1 < end && d[i + 2] == 0 && d[i + 3] == 1 && opens_delimiter(k, d[i + 4]) {
                proof {
                    lemma_first_delimiter_unique(k, d@, from as int, i as int);
                }
                return Some(i);
            }
            if d[i + 2] == 1 && opens_delimiter(k, d[i + 3]) {
                proof {
                    lemma_first_delimiter_unique(k, d@, from as int, i as int);
                }
                return Some(i);
            }
        }
        i = i + 1;
    }
    proof {
        lemma_no_delimiter(k, d@, from as int);
    }
    None
}

/// Whether an access unit holds a key slice.
fn contains_key_slice(k: NalSyntax, unit: &[u8]) -> (r: bool)
    ensures
        r == holds_key_slice(k, unit@),
{
    if unit.len() < 4 {
        return false;
    }
    let end: usize = unit.len() - 3;
    let mut i: usize = 0;
    while i < end
        invariant
            i <= unit@.len(),
            unit@.len() >= 4,
            end == unit@.len() - 3,
            forall|j: int| 0 <= j < i ==> !key_slice_at(k, unit@, j),
        decreases unit@.len() - i,
    {
        if unit[i] == 0 && unit[i + 1] == 0 {
            let at: usize = if unit[i + 2] == 1 {
                i + 3
            } else if i + 1 < end && unit[i + 2] == 0 && unit[i + 3] == 1 {
                i + 4
            } else {
                i = i + 1;
                continue ;
            };
            if opens_key_slice(k, unit[at]) {
                proof {
                    assert(key_slice_at(k, unit@, at - 3));
                }
                return true;
            }
            i = at;
        } else {
            i = i + 1;
        }
    }
    proof {
        assert forall|j: int| !key_slice_at(k, unit@, j) by {}
    }
    false
}

/// Takes every complete frame out of `stream`.
fn split_annexb(k: NalSyntax, stream: &mut StreamBuffer, out: &mut Vec<EncodedFrame>)
    requires
        old(stream).well_formed(),
        old(stream).live().len() + EncodedFrame::HEADER_LEN <= usize::MAX,
    ensures
        final(stream).well_formed(),
        frame_models(final(out)@) == frame_models(old(out)@) + annexb_frames(k, old(stream).live()),
        final(stream).live() == annexb_remainder(k, old(stream).live()),
{
    let ghost s = stream.live();
    let d = stream.bytes();
    let mut search: usize = 0;
    let mut last: Option<usize> = None;
    let ghost mut found: Seq<int> = Seq::empty();
    proof {
        assert(frames_between(k, s, found) =~= Seq::<FrameModel>::empty());
    }
    while search < d.len()
        invariant
            d@ == s,
            s.len() + EncodedFrame::HEADER_LEN <= usize::MAX,
            search <= d@.len(),
            found + delimiters(k, s, search as int) == delimiters(k, s, 0),
            match last {
                Some(p) => found.len() > 0 && found.last() == p as int && p <= search && p
                    <= s.len(),
                None => found.len() == 0,
            },
            frame_models(out@) == frame_models(old(out)@) + frames_between(k, s, found),
        ensures
            found == delimiters(k, s, 0),
        decreases d@.len() - search,
    {
        match find_delimiter(k, d, search) {
            Some(p) => {
                proof {
                    lemma_first_delimiter(k, s, search as int);
                }
                if let Some(start) = last {
                    let unit = slice_subrange(d, start, p);
                    let key: bool = contains_key_slice(k, unit);
                    let ghost before = out@;
                    out.push(make_frame(unit, key));
                    proof {
                        assert(frame_models(out@) =~= frame_models(before).push(
                            annexb_frame(k, s, start as int, p as int),
                        ));
                        assert(frames_between(k, s, found.push(p as int)) =~= frames_between(
                            k,
                            s,
                            found,
                        ).push(annexb_frame(k, s, start as int, p as int)));
                    }
                } else {
                    proof {
                        assert(frames_between(k, s, found.push(p as int)) =~= frames_between(
                            k,
                            s,
                            found,
                        ));
                    }
                }
                proof {
                    assert(delimiters(k, s, search as int) == seq![p as int] + delimiters(
                        k,
                        s,
                        p + 5,
                    ));
                    if p + 5 > s.len() {
                        assert(delimiters(k, s, p + 5) =~= Seq::<int>::empty());
                        assert(delimiters(k, s, s.len() as int) =~= Seq::<int>::empty());
                    }
                    assert(found + (seq![p as int] + delimiters(k, s, p + 5)) =~= found.push(
                        p as int,
                    ) + delimiters(k, s, p + 5));
                    found = found.push(p as int);
                }
                last = Some(p);
                search = if d.len() - p >= 5 {
                    p + 5
                } else {
                    d.len()
                };
            },
            None => {
                proof {
                    assert(delimiters(k, s, search as int) =~= Seq::<int>::empty());
                    assert(found + delimiters(k, s, search as int) =~= found);
                }
                break ;
            },
        }
        proof {
            if search >= d.len() {
                assert(delimiters(k, s, search as int) =~= Seq::<int>::empty());
                assert(found + delimiters(k, s, search as int) =~= found);
            }
        }
    }
    if let Some(start) = last {
        stream.consume(start);
    }
}

/// Splits an H.264 Annex-B stream on access unit delimiters (NAL unit type 9).
pub struct H264Splitter {
    stream: StreamBuffer,
}

impl Default for H264Splitter {
    fn default() -> (r: Self)
        ensures
            r.well_formed(),
            r.pending() == Seq::<u8>::empty(),
    {
        Self::new()
    }
}

impl H264Splitter {
    pub fn new() -> (r: Self)
        ensures
            r.well_formed(),
            r.pending() == Seq::<u8>::empty(),
    {
        H264Splitter { stream: StreamBuffer::new() }
    }
}

impl FrameSplitter for H264Splitter {
    closed spec fn pending(&self) -> Seq<u8> {
        self.stream.live()
    }

    closed spec fn well_formed(&self) -> bool {
        self.stream.well_formed()
    }

    open spec fn complete_frames(&self, s: Seq<u8>) -> Seq<FrameModel> {
        annexb_frames(NalSyntax::H264, s)
    }

    open spec fn remainder(&self, s: Seq<u8>) -> Seq<u8> {
        annexb_remainder(NalSyntax::H264, s)
    }

    fn push(&mut self, data: &[u8], out: &mut Vec<EncodedFrame>) {
        self.stream.extend(data);
        split_annexb(NalSyntax::H264, &mut self.stream, out);
    }

    fn buffered_bytes(&self) -> usize {
        self.stream.len()
    }

    fn reset(&mut self) {
        self.stream.clear();
    }
}

/// Splits an HEVC Annex-B stream on access unit delimiters (NAL unit type 35).
pub struct HevcSplitter {
    stream: StreamBuffer,
}

impl Default for HevcSplitter {
    fn default() -> (r: Self)
        ensures
            r.well_formed(),
            r.pending() == Seq::<u8>::empty(),
    {
        Self::new()
    }
}

impl HevcSplitter {
    pub fn new() -> (r: Self)
        ensures
            r.well_formed(),
            r.pending() == Seq::<u8>::empty(),
    {
        HevcSplitter { stream: StreamBuffer::new() }
    }
}

impl FrameSplitter for HevcSplitter {
    closed spec fn pending(&self) -> Seq<u8> {
        self.stream.live()
    }

    closed spec fn well_formed(&self) -> bool {
        self.stream.well_formed()
    }

    open spec fn complete_frames(&self, s: Seq<u8>) -> Seq<FrameModel> {
        annexb_frames(NalSyntax::Hevc, s)
    }

    open spec fn remainder(&self, s: Seq<u8>) -> Seq<u8> {
        annexb_remainder(NalSyntax::Hevc, s)
    }

    fn push(&mut self, data: &[u8], out: &mut Vec<EncodedFrame>) {
        self.stream.extend(data);
        split_annexb(NalSyntax::Hevc, &mut self.stream, out);
    }

    fn buffered_bytes(&self) -> usize {
        self.stream.len()
    }

    fn reset(&mut self) {
        self.stream.clear();
    }
}

// ── AV1 (Low-Overhead Bitstream Format) ────────────────────────────

/// OBU type of a sequence header.
pub const OBU_SEQUENCE_HEADER: u8 = 1;

/// OBU type of a temporal delimiter.
pub const OBU_TEMPORAL_DELIMITER: u8 = 2;

/// OBU type of a frame.
pub const OBU_FRAME: u8 = 6;

/// 128 to the power of `n`.
pub open spec fn pow128(n: int) -> int
    decreases n,
{
    if n <= 0 {
        1
    } else {
        128 * pow128(n - 1)
    }
}

/// How many bytes the LEB128 number at the start of `s` takes, counting from
/// byte `i` on: it ends with the first byte below 128, within eight bytes.
pub open spec fn leb128_size(s: Seq<u8>, i: int) -> Option<int>
    decreases 8 - i,
{
    if i >= 8 || i >= s.len() {
        None
    } else if s[i] < 128 {
        Some(i + 1)
    } else {
        leb128_size(s, i + 1)
    }
}

/// The number that the low seven bits of the first `n` bytes of `s` spell,
/// least significant first.
pub open spec fn leb128_value(s: Seq<u8>, n: int) -> int
    decreases n,
{
    if n <= 0 {
        0
    } else {
        leb128_value(s, n - 1) + (s[n - 1] % 128) * pow128(n - 1)
    }
}

/// The LEB128 number at the start of `s` and the bytes it takes.
pub open spec fn leb128(s: Seq<u8>) -> Option<(int, int)> {
    match leb128_size(s, 0) {
        Some(n) => Some((leb128_value(s, n), n)),
        None => None,
    }
}

/// One open bitstream unit of a stream: where it starts and ends, and its type.
pub struct Obu {
    pub start: int,
    pub end: int,
    pub kind: u8,
}

/// Whether an OBU header announces an extension byte.
pub open spec fn has_extension(header: u8) -> bool {
    header & 0x04 != 0
}

/// Whether an OBU header announces a size field.
pub open spec fn has_size(header: u8) -> bool {
    header & 0x02 != 0
}

/// The OBU that starts at `pos`, if it is complete in `s`. One without a size
/// field takes all that is there.
pub open spec fn obu_at(s: Seq<u8>, pos: int) -> Option<Obu> {
    if pos < 0 || pos >= s.len() {
        None
    } else {
        let header = s[pos];
        let kind = (header >> 3) & 0x0F;
        let body = if has_extension(header) {
            pos + 2
        } else {
            pos + 1
        };
        if body > s.len() {
            None
        } else if !has_size(header) {
            Some(Obu { start: pos, end: s.len() as int, kind })
        } else {
            match leb128(s.subrange(body, s.len() as int)) {
                Some((value, n)) => if body + n + value <= s.len() {
                    Some(Obu { start: pos, end: body + n + value, kind })
                } else {
                    None
                },
                None => None,
            }
        }
    }
}

/// The complete OBUs of `s`, one behind the other from `pos` on.
pub open spec fn obus(s: Seq<u8>, pos: int) -> Seq<Obu>
    decreases s.len() - pos,
{
    match obu_at(s, pos) {
        Some(o) => if pos < o.end <= s.len() {
            seq![o] + obus(s, o.end)
        } else {
            Seq::empty()
        },
        None => Seq::empty(),
    }
}

/// Where the temporal delimiters among `o` start.
pub open spec fn delimiter_starts(o: Seq<Obu>) -> Seq<int>
    decreases o.len(),
{
    if o.len() == 0 {
        Seq::empty()
    } else if o.last().kind == OBU_TEMPORAL_DELIMITER {
        delimiter_starts(o.drop_last()).push(o.last().start)
    } else {
        delimiter_starts(o.drop_last())
    }
}

/// Whether a sequence header among `o` starts between `from` and `to`.
pub open spec fn holds_sequence_header(o: Seq<Obu>, from: int, to: int) -> bool {
    exists|i: int|
        0 <= i < o.len() && (#[trigger] o[i]).kind == OBU_SEQUENCE_HEADER && from < o[i].start < to
}

/// The frames between the temporal delimiters `at` of the OBUs `o` of `s`.
pub open spec fn temporal_units(s: Seq<u8>, o: Seq<Obu>, at: Seq<int>) -> Seq<FrameModel> {
    Seq::new(
        if at.len() == 0 {
            0
        } else {
            (at.len() - 1) as nat
        },
        |i: int|
            frame_of(s.subrange(at[i], at[i + 1]), holds_sequence_header(o, at[i], at[i + 1])),
    )
}

/// The complete frames of an AV1 stream: one per pair of neighbouring
/// temporal delimiters, a key frame when it holds a sequence header.
pub open spec fn av1_frames(s: Seq<u8>) -> Seq<FrameModel> {
    temporal_units(s, obus(s, 0), delimiter_starts(obus(s, 0)))
}

/// Where the last of the OBUs `o` ends, or `pos` if there is none.
pub open spec fn end_of(o: Seq<Obu>, pos: int) -> int {
    if o.len() == 0 {
        pos
    } else {
        o.last().end
    }
}

/// What an AV1 stream leaves buffered: everything from its last temporal
/// delimiter on; all of it while there is only one; and without any, what
/// follows the last complete OBU.
pub open spec fn av1_remainder(s: Seq<u8>) -> Seq<u8> {
    let o = obus(s, 0);
    let at = delimiter_starts(o);
    if at.len() >= 2 {
        s.subrange(at.last(), s.len() as int)
    } else if at.len() == 1 {
        s
    } else {
        s.subrange(end_of(o, 0), s.len() as int)
    }
}

proof fn lemma_leb128_size(s: Seq<u8>, i: int)
    requires
        0 <= i,
    ensures
        match leb128_size(s, i) {
            Some(n) => i < n <= 8 && n <= s.len() && s[n - 1] < 128 && forall|j: int|
                i <= j < n - 1 ==> s[j] >= 128,
            None => forall|j: int| i <= j < 8 && j < s.len() ==> s[j] >= 128,
        },
    decreases 8 - i,
{
    if i >= 8 || i >= s.len() {
    } else if s[i] < 128 {
    } else {
        lemma_leb128_size(s, i + 1);
    }
}

proof fn lemma_leb128_value(s: Seq<u8>, n: int)
    requires
        0 <= n,
    ensures
        0 <= leb128_value(s, n) < pow128(n),
        pow128(n) >= 1,
    decreases n,
{
    if n > 0 {
        lemma_leb128_value(s, n - 1);
        let low = (s[n - 1] % 128) as int;
        let scale = pow128(n - 1);
        assert(0 <= low * scale <= 127 * scale) by (nonlinear_arith)
            requires
                0 <= low <= 127,
                scale >= 1,
        ;
    }
}

/// Complete OBUs follow each other without gaps, inside `s`.
proof fn lemma_obus(s: Seq<u8>, pos: int)
    requires
        0 <= pos <= s.len(),
    ensures
        forall|i: int|
            0 <= i < obus(s, pos).len() ==> pos <= (#[trigger] obus(s, pos)[i]).start
                && obus(s, pos)[i].start < obus(s, pos)[i].end && obus(s, pos)[i].end <= end_of(
                obus(s, pos),
                pos,
            ) && obu_at(s, obus(s, pos)[i].start) == Some(obus(s, pos)[i]),
        pos <= end_of(obus(s, pos), pos) <= s.len(),
        obu_at(s, end_of(obus(s, pos), pos)) is None,
        forall|i: int, j: int|
            0 <= i < j < obus(s, pos).len() ==> (#[trigger] obus(s, pos)[i]).end <= (
            #[trigger] obus(s, pos)[j]).start,
    decreases s.len() - pos,
{
    let all = obus(s, pos);
    lemma_obu_at(s, pos);
    if let Some(o) = obu_at(s, pos) {
        let rest = obus(s, o.end);
        lemma_obus(s, o.end);
        assert(all =~= seq![o] + rest);
        assert(end_of(all, pos) == end_of(rest, o.end));
        assert forall|i: int| 0 <= i < all.len() implies pos <= (#[trigger] all[i]).start
            && all[i].start < all[i].end && all[i].end <= end_of(all, pos) && obu_at(
            s,
            all[i].start,
        ) == Some(all[i]) by {
            if i > 0 {
                assert(all[i] == rest[i - 1]);
            }
        }
        assert forall|i: int, j: int| 0 <= i < j < all.len() implies (#[trigger] all[i]).end <= (
        #[trigger] all[j]).start by {
            assert(all[j] == rest[j - 1]);
            if i > 0 {
                assert(all[i] == rest[i - 1]);
            }
        }
    }
}

/// A complete OBU is not empty and ends inside `s`.
proof fn lemma_obu_at(s: Seq<u8>, pos: int)
    ensures
        match obu_at(s, pos) {
            Some(o) => o.start == pos && 0 <= pos < o.end <= s.len(),
            None => true,
        },
{
    if 0 <= pos < s.len() {
        let body = if has_extension(s[pos]) {
            pos + 2
        } else {
            pos + 1
        };
        if body <= s.len() && has_size(s[pos]) {
            let t = s.subrange(body, s.len() as int);
            lemma_leb128_size(t, 0);
            if let Some(n) = leb128_size(t, 0) {
                lemma_leb128_value(t, n);
            }
        }
    }
}

/// Delimiters are among the OBUs, in order.
proof fn lemma_delimiter_starts(o: Seq<Obu>, to: int)
    requires
        forall|i: int| 0 <= i < o.len() ==> 0 <= (#[trigger] o[i]).start < o[i].end <= to,
        forall|i: int, j: int|
            0 <= i < j < o.len() ==> (#[trigger] o[i]).end <= (#[trigger] o[j]).start,
    ensures
        forall|i: int|
            0 <= i < delimiter_starts(o).len() ==> 0 <= #[trigger] delimiter_starts(o)[i] < to,
        forall|i: int, j: int|
            0 <= i < j < delimiter_starts(o).len() ==> #[trigger] delimiter_starts(o)[i]
                < #[trigger] delimiter_starts(o)[j],
    decreases o.len(),
{
    if o.len() > 0 {
        let last = o[o.len() - 1];
        let before = delimiter_starts(o.drop_last());
        let all = delimiter_starts(o);
        assert forall|i: int| 0 <= i < o.len() - 1 implies 0 <= (#[trigger] o.drop_last()[i]).start
            < o.drop_last()[i].end <= last.start by {
            assert(o.drop_last()[i] == o[i]);
        }
        lemma_delimiter_starts(o.drop_last(), last.start);
        assert(all == if last.kind == OBU_TEMPORAL_DELIMITER {
            before.push(last.start)
        } else {
            before
        });
        assert forall|i: int| 0 <= i < all.len() implies 0 <= #[trigger] all[i] < to by {
            if i < before.len() {
                assert(all[i] == before[i]);
            }
        }
        assert forall|i: int, j: int| 0 <= i < j < all.len() implies #[trigger] all[i]
            < #[trigger] all[j] by {
            assert(all[i] == before[i]);
            if j < before.len() {
                assert(all[j] == before[j]);
            }
        }
    }
}

/// Splits an AV1 stream on temporal delimiters.
pub struct Av1Splitter {
    stream: StreamBuffer,
}

impl Default for Av1Splitter {
    fn default() -> (r: Self)
        ensures
            r.well_formed(),
            r.pending() == Seq::<u8>::empty(),
    {
        Self::new()
    }
}

impl Av1Splitter {
    pub fn new() -> (r: Self)
        ensures
            r.well_formed(),
            r.pending() == Seq::<u8>::empty(),
    {
        Av1Splitter { stream: StreamBuffer::new() }
    }

    /// Reads a LEB128 number of at most eight bytes. Returns the number and
    /// how many bytes it takes.
    pub fn read_leb128(buf: &[u8]) -> (r: Option<(u64, usize)>)
        ensures
            match r {
                Some((value, n)) => leb128(buf@) == Some((value as int, n as int)),
                None => leb128(buf@) is None,
            },
    {
        let mut value: u64 = 0;
        let mut scale: u64 = 1;
        let mut i: usize = 0;
        while i < 8 && i < buf.len()
            invariant
                i <= 8,
                i <= buf@.len(),
                value == leb128_value(buf@, i as int),
                scale == pow128(i as int),
                value < scale,
                scale <= 0x100_0000_0000_0000,
                i < 8 ==> scale <= 0x2_0000_0000_0000,
                i < 7 ==> scale <= 0x400_0000_0000,
                i < 6 ==> scale <= 0x8_0000_0000,
                i < 5 ==> scale <= 0x1000_0000,
                i < 4 ==> scale <= 0x20_0000,
                i < 3 ==> scale <= 0x4000,
                i < 2 ==> scale <= 0x80,
                i < 1 ==> scale <= 1,
                leb128_size(buf@, i as int) == leb128_size(buf@, 0),
            decreases 8 - i,
        {
            let b: u8 = buf[i];
            let low: u64 = (b % 128) as u64;
            proof {
                assert(low * scale <= 127 * scale) by (nonlinear_arith)
                    requires
                        low <= 127,
                ;
                assert(leb128_value(buf@, i + 1) == value + low * scale);
                assert(pow128(i + 1) == 128 * scale);
            }
            value = value + low * scale;
            if b < 128 {
                return Some((value, i + 1));
            }
            scale = scale * 128;
            i = i + 1;
        }
        None
    }

    /// Reads the OBU at `pos`: where it ends, and its type.
    fn read_obu(d: &[u8], pos: usize) -> (r: Option<(usize, u8)>)
        requires
            pos < d@.len(),
        ensures
            match r {
                Some((end, kind)) => obu_at(d@, pos as int) == Some(
                    (Obu { start: pos as int, end: end as int, kind }),
                ),
                None => obu_at(d@, pos as int) is None,
            },
    {
        let header: u8 = d[pos];
        let kind: u8 = (header >> 3) & 0x0F;
        let mut body: usize = pos + 1;
        if (header & 0x04) != 0 {
            if body >= d.len() {
                return None;
            }
            body = body + 1;
        }
        if (header & 0x02) == 0 {
            return Some((d.len(), kind));
        }
        let rest = slice_subrange(d, body, d.len());
        proof {
            lemma_leb128_size(rest@, 0);
        }
        match Self::read_leb128(rest) {
            Some((value, n)) => {
                let left: usize = d.len() - body - n;
                if value <= left as u64 {
                    Some((body + n + value as usize, kind))
                } else {
                    None
                }
            },
            None => None,
        }
    }

    /// Takes every complete frame out of the buffered stream.
    fn extract_units(&mut self, out: &mut Vec<EncodedFrame>)
        requires
            old(self).well_formed(),
            old(self).pending().len() + EncodedFrame::HEADER_LEN <= usize::MAX,
        ensures
            final(self).well_formed(),
            frame_models(final(out)@) == frame_models(old(out)@) + av1_frames(old(self).pending()),
            final(self).pending() == av1_remainder(old(self).pending()),
    {
        let ghost s = self.stream.live();
        let d = self.stream.bytes();
        let mut td_starts: Vec<usize> = Vec::new();
        let mut key_units: Vec<bool> = Vec::new();
        let mut pos: usize = 0;
        let ghost mut done: Seq<Obu> = Seq::empty();
        proof {
            assert(done + obus(s, 0) =~= obus(s, 0));
        }
        while pos < d.len()
            invariant
                d@ == s,
                pos <= s.len(),
                done + obus(s, pos as int) == obus(s, 0),
                pos == end_of(done, 0),
                forall|i: int|
                    0 <= i < done.len() ==> 0 <= (#[trigger] done[i]).start < done[i].end <= pos,
                td_starts@.len() == delimiter_starts(done).len(),
                forall|w: int|
                    0 <= w < td_starts@.len() ==> #[trigger] td_starts@[w] == delimiter_starts(
                        done,
                    )[w] && td_starts@[w] < pos,
                forall|w: int, v: int|
                    0 <= w < v < td_starts@.len() ==> #[trigger] td_starts@[w]
                        < #[trigger] td_starts@[v],
                key_units@.len() == td_starts@.len(),
                forall|w: int|
                    0 <= w < key_units@.len() ==> #[trigger] key_units@[w]
                        == holds_sequence_header(
                        done,
                        td_starts@[w] as int,
                        if w + 1 < td_starts@.len() {
                            td_starts@[w + 1] as int
                        } else {
                            pos as int
                        },
                    ),
            ensures
                done == obus(s, 0),
            decreases s.len() - pos,
        {
            proof {
                lemma_obu_at(s, pos as int);
            }
            let (end, kind) = match Self::read_obu(d, pos) {
                Some(o) => o,
                None => {
                    proof {
                        assert(done + obus(s, pos as int) =~= done);
                    }
                    break ;
                },
            };
            let ghost before = done;
            let ghost obu = Obu { start: pos as int, end: end as int, kind };
            proof {
                done = done.push(obu);
                assert(done.drop_last() =~= before);
                assert(obus(s, pos as int) == seq![obu] + obus(s, end as int));
                assert(before + (seq![obu] + obus(s, end as int)) =~= done + obus(s, end as int));
                assert forall|from: int, to: int| to <= pos implies #[trigger] holds_sequence_header(
                    done,
                    from,
                    to,
                ) == holds_sequence_header(before, from, to) by {
                    lemma_push_header(before, obu, from, to);
                }
                assert forall|from: int| #[trigger] holds_sequence_header(done, from, end as int)
                    == (holds_sequence_header(before, from, pos as int) || (kind
                    == OBU_SEQUENCE_HEADER && from < pos)) by {
                    lemma_push_header(before, obu, from, end as int);
                    lemma_header_bound(before, from, pos as int, end as int);
                }
                assert(!holds_sequence_header(before, pos as int, pos as int));
            }
            if kind == OBU_TEMPORAL_DELIMITER {
                td_starts.push(pos);
                key_units.push(false);
            } else if kind == OBU_SEQUENCE_HEADER {
                let n: usize = key_units.len();
                if n > 0 {
                    key_units[n - 1] = true;
                }
            }
            pos = end;
            proof {
                if pos >= d.len() {
                    assert(done + obus(s, pos as int) =~= done);
                }
            }
        }
        proof {
            lemma_obus(s, 0);
            assert(temporal_units(s, done, delimiter_starts(done)).take(0)
                =~= Seq::<FrameModel>::empty());
            assert(frame_models(out@) + Seq::<FrameModel>::empty() =~= frame_models(out@));
        }
        let ghost units = temporal_units(s, done, delimiter_starts(done));
        if td_starts.len() >= 2 {
            let mut w: usize = 0;
            while w + 1 < td_starts.len()
                invariant
                    d@ == s,
                    s.len() + EncodedFrame::HEADER_LEN <= usize::MAX,
                    2 <= td_starts@.len(),
                    w < td_starts@.len(),
                    key_units@.len() == td_starts@.len(),
                    td_starts@.len() == delimiter_starts(done).len(),
                    units == temporal_units(s, done, delimiter_starts(done)),
                    forall|v: int|
                        0 <= v < td_starts@.len() ==> #[trigger] td_starts@[v] == delimiter_starts(
                            done,
                        )[v] && td_starts@[v] < s.len(),
                    forall|v: int, u: int|
                        0 <= v < u < td_starts@.len() ==> #[trigger] td_starts@[v]
                            < #[trigger] td_starts@[u],
                    forall|v: int|
                        0 <= v < key_units@.len() - 1 ==> #[trigger] key_units@[v]
                            == holds_sequence_header(
                            done,
                            td_starts@[v] as int,
                            td_starts@[v + 1] as int,
                        ),
                    frame_models(out@) == frame_models(old(out)@) + units.take(w as int),
                decreases td_starts@.len() - w,
            {
                let start: usize = td_starts[w];
                let end: usize = td_starts[w + 1];
                let unit = slice_subrange(d, start, end);
                let ghost before = out@;
                out.push(make_frame(unit, key_units[w]));
                proof {
                    assert(frame_models(out@) =~= frame_models(before).push(units[w as int]));
                    assert(units.take(w + 1) =~= units.take(w as int).push(units[w as int]));
                }
                w = w + 1;
            }
            proof {
                assert(units.take(w as int) =~= units);
            }
            let last: usize = td_starts[td_starts.len() - 1];
            self.stream.consume(last);
        } else {
            proof {
                assert(units =~= Seq::<FrameModel>::empty());
            }
            if td_starts.len() == 0 {
                self.stream.consume(pos);
            }
        }
    }
}

proof fn lemma_push_header(o: Seq<Obu>, obu: Obu, from: int, to: int)
    ensures
        holds_sequence_header(o.push(obu), from, to) == (holds_sequence_header(o, from, to) || (
        obu.kind == OBU_SEQUENCE_HEADER && from < obu.start < to)),
{
    let all = o.push(obu);
    if holds_sequence_header(o, from, to) {
        let i = choose|i: int|
            0 <= i < o.len() && (#[trigger] o[i]).kind == OBU_SEQUENCE_HEADER && from < o[i].start
                < to;
        assert(all[i] == o[i]);
    }
    if obu.kind == OBU_SEQUENCE_HEADER && from < obu.start < to {
        assert(all[o.len() as int] == obu);
    }
    if holds_sequence_header(all, from, to) {
        let i = choose|i: int|
            0 <= i < all.len() && (#[trigger] all[i]).kind == OBU_SEQUENCE_HEADER && from
                < all[i].start < to;
        if i < o.len() {
            assert(all[i] == o[i]);
        }
    }
}

proof fn lemma_header_bound(o: Seq<Obu>, from: int, to: int, further: int)
    requires
        to <= further,
        forall|i: int| 0 <= i < o.len() ==> (#[trigger] o[i]).start < to,
    ensures
        holds_sequence_header(o, from, to) == holds_sequence_header(o, from, further),
{
    if holds_sequence_header(o, from, further) {
        let i = choose|i: int|
            0 <= i < o.len() && (#[trigger] o[i]).kind == OBU_SEQUENCE_HEADER && from < o[i].start
                < further;
        assert(o[i].start < to);
    }
}

impl FrameSplitter for Av1Splitter {
    closed spec fn pending(&self) -> Seq<u8> {
        self.stream.live()
    }

    closed spec fn well_formed(&self) -> bool {
        self.stream.well_formed()
    }

    open spec fn complete_frames(&self, s: Seq<u8>) -> Seq<FrameModel> {
        av1_frames(s)
    }

    open spec fn remainder(&self, s: Seq<u8>) -> Seq<u8> {
        av1_remainder(s)
    }

    fn push(&mut self, data: &[u8], out: &mut Vec<EncodedFrame>) {
        self.stream.extend(data);
        self.extract_units(out);
    }

    fn buffered_bytes(&self) -> usize {
        self.stream.len()
    }

    fn reset(&mut self) {
        self.stream.clear();
    }
}

// ── Laws ───────────────────────────────────────────────────────────

/// The payload of a frame is the access unit it was made of.
pub proof fn law_frame_carries_its_unit(unit: Seq<u8>, is_keyframe: bool)
    ensures
        payload_of(frame_of(unit, is_keyframe)) == unit,
        frame_of(unit, is_keyframe).data.len() == EncodedFrame::HEADER_LEN + unit.len(),
        forall|i: int|
            0 <= i < EncodedFrame::HEADER_LEN ==> frame_of(unit, is_keyframe).data[i] == 0,
{
    assert(payload_of(frame_of(unit, is_keyframe)) =~= unit);
}

/// Cutting `s` at the rising positions `at` and joining the pieces gives back
/// what stands between the first and the last of them.
proof fn lemma_cuts_join(s: Seq<u8>, at: Seq<int>, frames: Seq<FrameModel>)
    requires
        at.len() >= 1,
        frames.len() == at.len() - 1,
        forall|i: int| 0 <= i < at.len() ==> 0 <= #[trigger] at[i] <= s.len(),
        forall|i: int, j: int| 0 <= i < j < at.len() ==> #[trigger] at[i] <= #[trigger] at[j],
        forall|i: int|
            0 <= i < frames.len() ==> payload_of(#[trigger] frames[i]) == s.subrange(
                at[i],
                at[i + 1],
            ),
    ensures
        payloads(frames) == s.subrange(at[0], at.last()),
    decreases at.len(),
{
    if at.len() > 1 {
        let n = at.len() - 1;
        let shorter = at.drop_last();
        lemma_cuts_join(s, shorter, frames.drop_last());
        assert(payload_of(frames[n - 1]) == s.subrange(at[n - 1], at[n]));
        assert(payloads(frames) =~= s.subrange(at[0], at.last()));
    } else {
        assert(payloads(frames) =~= s.subrange(at[0], at.last()));
    }
}

/// No byte of an Annex-B stream is lost behind its first delimiter: the access
/// units handed out, followed by what stays buffered, are the stream from that
/// delimiter on. Without a delimiter nothing is handed out and all stays.
pub proof fn law_annexb_loses_nothing(k: NalSyntax, s: Seq<u8>)
    ensures
        match first_delimiter(k, s, 0) {
            Some(p) => 0 <= p <= s.len() && payloads(annexb_frames(k, s)) + annexb_remainder(k, s)
                == s.subrange(p, s.len() as int),
            None => annexb_frames(k, s) == Seq::<FrameModel>::empty() && annexb_remainder(k, s)
                == s,
        },
{
    let at = delimiters(k, s, 0);
    lemma_delimiters(k, s, 0);
    lemma_first_delimiter(k, s, 0);
    if let Some(p) = first_delimiter(k, s, 0) {
        assert(at[0] == p);
        let frames = annexb_frames(k, s);
        assert forall|i: int| 0 <= i < frames.len() implies payload_of(#[trigger] frames[i])
            == s.subrange(at[i], at[i + 1]) by {
            law_frame_carries_its_unit(
                s.subrange(at[i], at[i + 1]),
                holds_key_slice(k, s.subrange(at[i], at[i + 1])),
            );
        }
        assert forall|i: int| 0 <= i < at.len() implies 0 <= #[trigger] at[i] <= s.len() by {}
        lemma_cuts_join(s, at, frames);
        assert(payloads(frames) + annexb_remainder(k, s) =~= s.subrange(p, s.len() as int));
    } else {
        assert(annexb_frames(k, s) =~= Seq::<FrameModel>::empty());
    }
}

/// Every frame of an Annex-B stream starts with its delimiter and is at least
/// five bytes long behind the wire header.
pub proof fn law_annexb_frames_start_with_delimiter(k: NalSyntax, s: Seq<u8>, i: int)
    requires
        0 <= i < annexb_frames(k, s).len(),
    ensures
        payload_of(annexb_frames(k, s)[i]).len() >= 5,
        delimiter_at(k, payload_of(annexb_frames(k, s)[i]), 0),
{
    let at = delimiters(k, s, 0);
    lemma_delimiters(k, s, 0);
    let unit = s.subrange(at[i], at[i + 1]);
    law_frame_carries_its_unit(unit, holds_key_slice(k, unit));
    assert(at[i] + 5 <= at[i + 1]);
    assert(delimiter_at(k, s, at[i]));
    assert(delimiter_at(k, s, at[i + 1]));
}

/// Bytes behind `a` do not change a delimiter that `a` holds.
proof fn lemma_delimiter_kept(k: NalSyntax, a: Seq<u8>, b: Seq<u8>)
    ensures
        forall|i: int| #[trigger] delimiter_at(k, a, i) ==> delimiter_at(k, a + b, i),
        forall|i: int|
            i + 4 < a.len() ==> (#[trigger] delimiter_at(k, a + b, i) == delimiter_at(k, a, i)),
{
}

proof fn lemma_delimiters_extend(k: NalSyntax, a: Seq<u8>, b: Seq<u8>, from: int)
    requires
        0 <= from,
    ensures
        ({
            let at = delimiters(k, a, from);
            delimiters(k, a + b, from) == at + delimiters(
                k,
                a + b,
                if at.len() == 0 {
                    from
                } else {
                    at.last() + 5
                },
            )
        }),
    decreases left_of(a, from),
{
    lemma_delimiter_kept(k, a, b);
    lemma_first_delimiter(k, a, from);
    let at = delimiters(k, a, from);
    match first_delimiter(k, a, from) {
        None => {
            assert(at + delimiters(k, a + b, from) =~= delimiters(k, a + b, from));
        },
        Some(p) => {
            assert forall|j: int| from <= j < p implies !delimiter_at(k, a + b, j) by {
                assert(!delimiter_at(k, a, j));
            }
            lemma_first_delimiter_unique(k, a + b, from, p);
            lemma_delimiters_extend(k, a, b, p + 5);
            let rest = delimiters(k, a, p + 5);
            let next = if rest.len() == 0 {
                p + 5
            } else {
                rest.last() + 5
            };
            assert(at =~= seq![p] + rest);
            assert(at.last() + 5 == next);
            assert(delimiters(k, a + b, from) == seq![p] + delimiters(k, a + b, p + 5));
            assert(seq![p] + (rest + delimiters(k, a + b, next)) =~= at + delimiters(
                k,
                a + b,
                next,
            ));
        },
    }
}

/// Dropping the first `m` bytes moves the delimiters behind them by `m`.
proof fn lemma_delimiters_shift(k: NalSyntax, s: Seq<u8>, m: int, from: int)
    requires
        0 <= m <= from,
        m <= s.len(),
    ensures
        delimiters(k, s.subrange(m, s.len() as int), from - m).len() == delimiters(k, s, from).len(),
        forall|i: int|
            0 <= i < delimiters(k, s, from).len() ==> #[trigger] delimiters(k, s, from)[i] == m
                + delimiters(k, s.subrange(m, s.len() as int), from - m)[i],
    decreases left_of(s, from),
{
    let t = s.subrange(m, s.len() as int);
    assert forall|i: int| 0 <= i implies #[trigger] delimiter_at(k, t, i) == delimiter_at(
        k,
        s,
        i + m,
    ) by {}
    lemma_first_delimiter(k, s, from);
    lemma_first_delimiter(k, t, from - m);
    match first_delimiter(k, s, from) {
        None => {
            if let Some(q) = first_delimiter(k, t, from - m) {
                assert(delimiter_at(k, t, q));
                assert(delimiter_at(k, s, q + m));
            }
        },
        Some(p) => {
            assert(delimiter_at(k, t, p - m));
            assert forall|j: int| from - m <= j < p - m implies !delimiter_at(k, t, j) by {
                assert(!delimiter_at(k, s, j + m));
            }
            lemma_first_delimiter_unique(k, t, from - m, p - m);
            lemma_delimiters_shift(k, s, m, p + 5);
            let here = delimiters(k, s, from);
            let there = delimiters(k, t, from - m);
            assert(here =~= seq![p] + delimiters(k, s, p + 5));
            assert(there =~= seq![p - m] + delimiters(k, t, p - m + 5));
            assert forall|i: int| 0 <= i < here.len() implies #[trigger] here[i] == m + there[i] by {
                if i > 0 {
                    assert(here[i] == delimiters(k, s, p + 5)[i - 1]);
                }
            }
        },
    }
}

/// How an Annex-B stream is cut into chunks does not matter: feeding `a` and
/// then `b` hands out the same frames, and leaves the same bytes buffered, as
/// feeding both at once.
pub proof fn law_annexb_chunking(k: NalSyntax, a: Seq<u8>, b: Seq<u8>)
    ensures
        annexb_frames(k, a) + annexb_frames(k, annexb_remainder(k, a) + b) == annexb_frames(
            k,
            a + b,
        ),
        annexb_remainder(k, annexb_remainder(k, a) + b) == annexb_remainder(k, a + b),
{
    let ab = a + b;
    let at = delimiters(k, a, 0);
    lemma_delimiters(k, a, 0);
    lemma_delimiters_extend(k, a, b, 0);
    if at.len() == 0 {
        assert(annexb_frames(k, a) + annexb_frames(k, ab) =~= annexb_frames(k, ab));
    } else {
        let m = at.last();
        assert(delimiter_at(k, a, m));
        let x = annexb_remainder(k, a) + b;
        assert(x =~= ab.subrange(m, ab.len() as int));
        lemma_delimiter_kept(k, a, b);
        assert(delimiter_at(k, ab, m));
        assert(delimiter_at(k, x, 0));
        lemma_first_delimiter_unique(k, x, 0, 0);
        lemma_delimiters_shift(k, ab, m, m + 5);
        let rest = delimiters(k, ab, m + 5);
        let all = delimiters(k, ab, 0);
        let later = delimiters(k, x, 0);
        assert(all =~= at + rest);
        assert(later =~= seq![0int] + delimiters(k, x, 5));
        lemma_delimiters(k, ab, 0);
        let n = at.len() - 1;
        assert(later.len() == all.len() - n);
        assert forall|i: int| 0 <= i < later.len() implies #[trigger] later[i] == all[n + i]
            - m by {
            if i > 0 {
                assert(all[n + i] == rest[i - 1]);
                assert(later[i] == delimiters(k, x, 5)[i - 1]);
            }
        }
        let left = annexb_frames(k, a) + annexb_frames(k, x);
        let right = annexb_frames(k, ab);
        assert forall|i: int| 0 <= i < right.len() implies left[i] == right[i] by {
            assert(delimiter_at(k, ab, all[i]));
            assert(delimiter_at(k, ab, all[i + 1]));
            if i < n {
                assert(all[i] == at[i] && all[i + 1] == at[i + 1]);
                assert(delimiter_at(k, a, at[i + 1]));
                assert(a.subrange(at[i], at[i + 1]) =~= ab.subrange(all[i], all[i + 1]));
            } else {
                let j = i - n;
                assert(later[j] == all[i] - m && later[j + 1] == all[i + 1] - m);
                assert(all[n] == m);
                assert(m <= all[i]) by {
                    if i > n {
                        assert(all[n] + 5 <= all[i]);
                    }
                }
                assert(all[i] + 5 <= all[i + 1]);
                assert(x.subrange(later[j], later[j + 1]) =~= ab.subrange(all[i], all[i + 1]));
            }
        }
        assert(left =~= right);
        let e = all.len() - 1;
        assert(later[e - n] == all[e] - m);
        assert(delimiter_at(k, ab, all[e]));
        assert(m <= all[e]) by {
            if e > n {
                assert(all[n] + 5 <= all[e]);
            }
        }
        assert(annexb_remainder(k, x) =~= annexb_remainder(k, ab));
    }
}

/// The OBUs `o`, each moved `m` bytes towards the start.
spec fn moved(o: Seq<Obu>, m: int) -> Seq<Obu> {
    Seq::new(o.len(), |i: int| Obu { start: o[i].start - m, end: o[i].end - m, kind: o[i].kind })
}

proof fn lemma_leb128_extend(t: Seq<u8>, u: Seq<u8>, i: int)
    requires
        0 <= i,
        leb128_size(t, i) is Some,
    ensures
        leb128_size(t + u, i) == leb128_size(t, i),
    decreases 8 - i,
{
    if t[i] >= 128 {
        lemma_leb128_extend(t, u, i + 1);
    }
}

proof fn lemma_leb128_value_extend(t: Seq<u8>, u: Seq<u8>, n: int)
    requires
        0 <= n <= t.len(),
    ensures
        leb128_value(t + u, n) == leb128_value(t, n),
    decreases n,
{
    if n > 0 {
        lemma_leb128_value_extend(t, u, n - 1);
    }
}

/// Bytes behind `a` do not change an OBU with a size field that `a` holds.
proof fn lemma_obu_kept(a: Seq<u8>, b: Seq<u8>, pos: int)
    requires
        obu_at(a, pos) is Some,
        has_size(a[pos]),
    ensures
        obu_at(a + b, pos) == obu_at(a, pos),
{
    let body = if has_extension(a[pos]) {
        pos + 2
    } else {
        pos + 1
    };
    let t = a.subrange(body, a.len() as int);
    lemma_leb128_size(t, 0);
    lemma_leb128_extend(t, b, 0);
    lemma_leb128_value_extend(t, b, leb128_size(t, 0)->0);
    assert((a + b).subrange(body, (a + b).len() as int) =~= t + b);
    lemma_leb128_value(t, leb128_size(t, 0)->0);
}

proof fn lemma_obus_extend(a: Seq<u8>, b: Seq<u8>, pos: int)
    requires
        0 <= pos <= a.len(),
        forall|i: int| 0 <= i < obus(a, pos).len() ==> has_size(a[(#[trigger] obus(a, pos)[i]).start]),
    ensures
        obus(a + b, pos) == obus(a, pos) + obus(a + b, end_of(obus(a, pos), pos)),
    decreases a.len() - pos,
{
    let all = obus(a, pos);
    lemma_obu_at(a, pos);
    match obu_at(a, pos) {
        None => {
            assert(all + obus(a + b, pos) =~= obus(a + b, pos));
        },
        Some(o) => {
            let rest = obus(a, o.end);
            assert(all =~= seq![o] + rest);
            assert(all[0] == o);
            lemma_obu_kept(a, b, pos);
            assert forall|i: int| 0 <= i < rest.len() implies has_size(
                a[(#[trigger] rest[i]).start],
            ) by {
                assert(all[i + 1] == rest[i]);
            }
            lemma_obus_extend(a, b, o.end);
            let next = end_of(rest, o.end);
            assert(next == end_of(all, pos));
            assert(obus(a + b, pos) == seq![o] + obus(a + b, o.end));
            assert(seq![o] + (rest + obus(a + b, next)) =~= all + obus(a + b, next));
        },
    }
}

proof fn lemma_obu_shift(s: Seq<u8>, m: int, pos: int)
    requires
        0 <= m <= pos,
        m <= s.len(),
    ensures
        match obu_at(s, pos) {
            Some(o) => obu_at(s.subrange(m, s.len() as int), pos - m) == Some(
                (Obu { start: o.start - m, end: o.end - m, kind: o.kind }),
            ),
            None => obu_at(s.subrange(m, s.len() as int), pos - m) is None,
        },
{
    let t = s.subrange(m, s.len() as int);
    if pos < s.len() {
        assert(t[pos - m] == s[pos]);
        let body = if has_extension(s[pos]) {
            pos + 2
        } else {
            pos + 1
        };
        if body <= s.len() {
            assert(t.subrange(body - m, t.len() as int) =~= s.subrange(body, s.len() as int));
        }
    }
}

proof fn lemma_obus_shift(s: Seq<u8>, m: int, pos: int)
    requires
        0 <= m <= pos <= s.len(),
    ensures
        obus(s.subrange(m, s.len() as int), pos - m) == moved(obus(s, pos), m),
    decreases s.len() - pos,
{
    let t = s.subrange(m, s.len() as int);
    lemma_obu_shift(s, m, pos);
    lemma_obu_at(s, pos);
    match obu_at(s, pos) {
        None => {
            assert(obus(t, pos - m) =~= moved(obus(s, pos), m));
        },
        Some(o) => {
            lemma_obus_shift(s, m, o.end);
            assert(obus(s, pos) =~= seq![o] + obus(s, o.end));
            assert(obus(t, pos - m) =~= seq![obu_at(t, pos - m)->0] + obus(t, o.end - m));
            assert(obus(t, pos - m) =~= moved(obus(s, pos), m));
        },
    }
}

/// The OBUs from the `j`-th on are those read from where it starts.
proof fn lemma_obus_suffix(s: Seq<u8>, pos: int, j: int)
    requires
        0 <= pos <= s.len(),
        0 <= j < obus(s, pos).len(),
    ensures
        obus(s, pos).skip(j) == obus(s, obus(s, pos)[j].start),
    decreases j,
{
    lemma_obu_at(s, pos);
    let o = obu_at(s, pos)->0;
    let rest = obus(s, o.end);
    assert(obus(s, pos) =~= seq![o] + rest);
    if j > 0 {
        lemma_obus_suffix(s, o.end, j - 1);
        assert(obus(s, pos).skip(j) =~= rest.skip(j - 1));
    } else {
        assert(obus(s, pos).skip(0) =~= obus(s, pos));
    }
}

proof fn lemma_delimiter_starts_concat(o1: Seq<Obu>, o2: Seq<Obu>)
    ensures
        delimiter_starts(o1 + o2) == delimiter_starts(o1) + delimiter_starts(o2),
    decreases o2.len(),
{
    if o2.len() == 0 {
        assert(o1 + o2 =~= o1);
        assert(delimiter_starts(o1) + delimiter_starts(o2) =~= delimiter_starts(o1));
    } else {
        assert((o1 + o2).drop_last() =~= o1 + o2.drop_last());
        lemma_delimiter_starts_concat(o1, o2.drop_last());
        assert(delimiter_starts(o1 + o2) =~= delimiter_starts(o1) + delimiter_starts(o2));
    }
}

proof fn lemma_delimiter_starts_moved(o: Seq<Obu>, m: int)
    ensures
        delimiter_starts(moved(o, m)).len() == delimiter_starts(o).len(),
        forall|i: int|
            0 <= i < delimiter_starts(o).len() ==> #[trigger] delimiter_starts(moved(o, m))[i]
                == delimiter_starts(o)[i] - m,
    decreases o.len(),
{
    if o.len() > 0 {
        assert(moved(o, m).drop_last() =~= moved(o.drop_last(), m));
        lemma_delimiter_starts_moved(o.drop_last(), m);
        let there = delimiter_starts(moved(o, m));
        let here = delimiter_starts(o);
        let before = delimiter_starts(o.drop_last());
        assert(moved(o, m).last().kind == o.last().kind);
        assert forall|i: int| 0 <= i < here.len() implies #[trigger] there[i] == here[i] - m by {
            if i < before.len() {
                assert(here[i] == before[i]);
                assert(there[i] == delimiter_starts(moved(o.drop_last(), m))[i]);
            }
        }
    }
}

/// The OBU that is the last temporal delimiter.
proof fn lemma_last_delimiter(o: Seq<Obu>) -> (j: int)
    requires
        delimiter_starts(o).len() > 0,
    ensures
        0 <= j < o.len(),
        o[j].kind == OBU_TEMPORAL_DELIMITER,
        o[j].start == delimiter_starts(o).last(),
        delimiter_starts(o.take(j)) == delimiter_starts(o).drop_last(),
    decreases o.len(),
{
    if o.last().kind == OBU_TEMPORAL_DELIMITER {
        assert(o.take(o.len() - 1) =~= o.drop_last());
        assert(delimiter_starts(o).drop_last() =~= delimiter_starts(o.drop_last()));
        o.len() - 1
    } else {
        let j = lemma_last_delimiter(o.drop_last());
        assert(o.drop_last().take(j) =~= o.take(j));
        j
    }
}

proof fn lemma_header_concat(o1: Seq<Obu>, o2: Seq<Obu>, from: int, to: int)
    ensures
        holds_sequence_header(o1 + o2, from, to) == (holds_sequence_header(o1, from, to)
            || holds_sequence_header(o2, from, to)),
{
    let all = o1 + o2;
    if holds_sequence_header(o1, from, to) {
        let i = choose|i: int|
            0 <= i < o1.len() && (#[trigger] o1[i]).kind == OBU_SEQUENCE_HEADER && from
                < o1[i].start < to;
        assert(all[i] == o1[i]);
    }
    if holds_sequence_header(o2, from, to) {
        let i = choose|i: int|
            0 <= i < o2.len() && (#[trigger] o2[i]).kind == OBU_SEQUENCE_HEADER && from
                < o2[i].start < to;
        assert(all[o1.len() + i] == o2[i]);
    }
    if holds_sequence_header(all, from, to) {
        let i = choose|i: int|
            0 <= i < all.len() && (#[trigger] all[i]).kind == OBU_SEQUENCE_HEADER && from
                < all[i].start < to;
        if i < o1.len() {
            assert(all[i] == o1[i]);
        } else {
            assert(all[i] == o2[i - o1.len()]);
        }
    }
}

proof fn lemma_header_moved(o: Seq<Obu>, m: int, from: int, to: int)
    ensures
        holds_sequence_header(moved(o, m), from - m, to - m) == holds_sequence_header(o, from, to),
{
    let there = moved(o, m);
    if holds_sequence_header(o, from, to) {
        let i = choose|i: int|
            0 <= i < o.len() && (#[trigger] o[i]).kind == OBU_SEQUENCE_HEADER && from < o[i].start
                < to;
        assert(there[i].start == o[i].start - m);
    }
    if holds_sequence_header(there, from - m, to - m) {
        let i = choose|i: int|
            0 <= i < there.len() && (#[trigger] there[i]).kind == OBU_SEQUENCE_HEADER && from - m
                < there[i].start < to - m;
        assert(there[i].start == o[i].start - m);
    }
}

/// A stream read from an OBU boundary `m` on gives the frames of the whole
/// that lie behind `m`.
proof fn lemma_frames_behind(s: Seq<u8>, before: Seq<Obu>, m: int)
    requires
        0 <= m <= s.len(),
        obus(s, 0) == before + obus(s, m),
        forall|i: int| 0 <= i < before.len() ==> (#[trigger] before[i]).start < m,
    ensures
        av1_frames(s.subrange(m, s.len() as int)) == temporal_units(
            s,
            obus(s, 0),
            delimiter_starts(obus(s, m)),
        ),
{
    let t = s.subrange(m, s.len() as int);
    let all = obus(s, 0);
    let behind = obus(s, m);
    lemma_obus_shift(s, m, m);
    lemma_delimiter_starts_moved(behind, m);
    lemma_obus(s, m);
    lemma_delimiter_starts(behind, s.len() as int);
    let at = delimiter_starts(behind);
    let at_t = delimiter_starts(obus(t, 0));
    assert(obus(t, 0) == moved(behind, m));
    lemma_starts_from(behind, m);
    let left = av1_frames(t);
    let right = temporal_units(s, all, at);
    assert forall|i: int| 0 <= i < right.len() implies left[i] == right[i] by {
        assert(at_t[i] == at[i] - m);
        assert(at_t[i + 1] == at[i + 1] - m);
        assert(at[i] < at[i + 1]);
        lemma_header_moved(behind, m, at[i], at[i + 1]);
        lemma_header_concat(before, behind, at[i], at[i + 1]);
        assert(!holds_sequence_header(before, at[i], at[i + 1]));
        assert(t.subrange(at_t[i], at_t[i + 1]) =~= s.subrange(at[i], at[i + 1]));
    }
    assert(left =~= right);
}

proof fn lemma_starts_from(o: Seq<Obu>, m: int)
    requires
        forall|i: int| 0 <= i < o.len() ==> m <= (#[trigger] o[i]).start,
    ensures
        forall|i: int|
            0 <= i < delimiter_starts(o).len() ==> m <= #[trigger] delimiter_starts(o)[i],
    decreases o.len(),
{
    if o.len() > 0 {
        lemma_starts_from(o.drop_last(), m);
        let before = delimiter_starts(o.drop_last());
        assert(m <= o[o.len() - 1].start);
        assert forall|i: int| 0 <= i < delimiter_starts(o).len() implies m
            <= #[trigger] delimiter_starts(o)[i] by {
            if i < before.len() {
                assert(delimiter_starts(o)[i] == before[i]);
            }
        }
    }
}

/// No byte of an AV1 stream is lost behind its first temporal delimiter: the
/// access units handed out, followed by what stays buffered, are the stream
/// from there on. With one delimiter nothing is handed out and all stays;
/// without any, only complete OBUs are dropped.
pub proof fn law_av1_loses_nothing(s: Seq<u8>)
    ensures
        ({
            let at = delimiter_starts(obus(s, 0));
            &&& at.len() >= 2 ==> 0 <= at[0] <= s.len() && payloads(av1_frames(s)) + av1_remainder(
                s,
            ) == s.subrange(at[0], s.len() as int)
            &&& at.len() == 1 ==> av1_remainder(s) == s
            &&& at.len() <= 1 ==> av1_frames(s) == Seq::<FrameModel>::empty()
            &&& at.len() == 0 ==> obus(s, 0) + obus(s, end_of(obus(s, 0), 0)) == obus(s, 0)
        }),
{
    let o = obus(s, 0);
    let at = delimiter_starts(o);
    lemma_obus(s, 0);
    lemma_delimiter_starts(o, s.len() as int);
    if at.len() >= 2 {
        let frames = av1_frames(s);
        assert forall|i: int| 0 <= i < frames.len() implies payload_of(#[trigger] frames[i])
            == s.subrange(at[i], at[i + 1]) by {
            law_frame_carries_its_unit(
                s.subrange(at[i], at[i + 1]),
                holds_sequence_header(o, at[i], at[i + 1]),
            );
        }
        assert forall|i: int| 0 <= i < at.len() implies 0 <= #[trigger] at[i] <= s.len() by {}
        lemma_cuts_join(s, at, frames);
        assert(payloads(frames) + av1_remainder(s) =~= s.subrange(at[0], s.len() as int));
    } else {
        assert(av1_frames(s) =~= Seq::<FrameModel>::empty());
        assert(o + obus(s, end_of(o, 0)) =~= o);
    }
}

/// Chunking when the first chunk holds no temporal delimiter.
proof fn lemma_av1_chunking_none(a: Seq<u8>, b: Seq<u8>)
    requires
        forall|i: int| 0 <= i < obus(a, 0).len() ==> has_size(a[(#[trigger] obus(a, 0)[i]).start]),
        delimiter_starts(obus(a, 0)).len() == 0,
    ensures
        av1_frames(a) + av1_frames(av1_remainder(a) + b) == av1_frames(a + b),
        delimiter_starts(obus(a + b, 0)).len() != 1 ==> av1_remainder(av1_remainder(a) + b)
            == av1_remainder(a + b),
{
    let ab = a + b;
    let x = av1_remainder(a) + b;
    let o_a = obus(a, 0);
    let at = delimiter_starts(obus(ab, 0));
    lemma_obus(a, 0);
    lemma_obus_extend(a, b, 0);
    let e = end_of(o_a, 0);
    let tail = obus(ab, e);
    lemma_delimiter_starts_concat(o_a, tail);
    assert(x =~= ab.subrange(e, ab.len() as int));
    lemma_frames_behind(ab, o_a, e);
    assert(at =~= delimiter_starts(tail));
    assert(av1_frames(a) + av1_frames(x) =~= av1_frames(ab));
    lemma_obus_shift(ab, e, e);
    lemma_delimiter_starts_moved(tail, e);
    lemma_obus(ab, e);
    if at.len() >= 2 {
        lemma_delimiter_starts(tail, ab.len() as int);
        lemma_starts_from(tail, e);
        let last = at.len() - 1;
        assert(delimiter_starts(obus(x, 0))[last] == at[last] - e);
        assert(av1_remainder(x) =~= av1_remainder(ab));
    } else if at.len() == 0 {
        assert(end_of(obus(x, 0), 0) + e == end_of(tail, e));
        assert(end_of(tail, e) == end_of(obus(ab, 0), 0));
        assert(av1_remainder(x) =~= av1_remainder(ab));
    }
}

/// How the OBUs of both chunks lie around the last delimiter of the first.
proof fn lemma_av1_chunking_cut(a: Seq<u8>, b: Seq<u8>)
    requires
        forall|i: int| 0 <= i < obus(a, 0).len() ==> has_size(a[(#[trigger] obus(a, 0)[i]).start]),
        delimiter_starts(obus(a, 0)).len() >= 2,
    ensures
        ({
            let ab = a + b;
            let at_a = delimiter_starts(obus(a, 0));
            let m = at_a.last();
            let at_b = delimiter_starts(obus(ab, m));
            &&& 0 <= m <= a.len()
            &&& at_b.len() >= 1
            &&& delimiter_starts(obus(ab, 0)) == at_a.drop_last() + at_b
            &&& delimiter_starts(obus(ab, 0))[at_a.len() - 1] == m
            &&& av1_frames(ab.subrange(m, ab.len() as int)) == temporal_units(
                ab,
                obus(ab, 0),
                at_b,
            )
        }),
{
    let ab = a + b;
    let o_a = obus(a, 0);
    let at_a = delimiter_starts(o_a);
    let o = obus(ab, 0);
    let at = delimiter_starts(o);
    lemma_obus(a, 0);
    lemma_obus_extend(a, b, 0);
    let tail = obus(ab, end_of(o_a, 0));
    lemma_delimiter_starts_concat(o_a, tail);
    lemma_delimiter_starts(o_a, a.len() as int);
    let j = lemma_last_delimiter(o_a);
    let m = at_a.last();
    assert(o[j] == o_a[j]);
    lemma_obus_suffix(ab, 0, j);
    let before = o_a.take(j);
    let behind = obus(ab, m);
    assert(o.take(j) =~= before);
    assert(o =~= before + o.skip(j));
    assert forall|i: int| 0 <= i < before.len() implies (#[trigger] before[i]).start < m by {
        assert(o_a[i].end <= o_a[j].start);
    }
    lemma_frames_behind(ab, before, m);
    lemma_delimiter_starts_concat(before, behind);
    assert(at.len() >= at_a.len());
    assert(at[at_a.len() - 1] == m);
}

/// Chunking when the first chunk holds two temporal delimiters or more.
proof fn lemma_av1_chunking_many(a: Seq<u8>, b: Seq<u8>)
    requires
        forall|i: int| 0 <= i < obus(a, 0).len() ==> has_size(a[(#[trigger] obus(a, 0)[i]).start]),
        delimiter_starts(obus(a, 0)).len() >= 2,
    ensures
        av1_frames(a) + av1_frames(av1_remainder(a) + b) == av1_frames(a + b),
{
    let ab = a + b;
    let x = av1_remainder(a) + b;
    let o_a = obus(a, 0);
    let at_a = delimiter_starts(o_a);
    let o = obus(ab, 0);
    let at = delimiter_starts(o);
    let m = at_a.last();
    lemma_av1_chunking_cut(a, b);
    lemma_obus(a, 0);
    lemma_obus_extend(a, b, 0);
    let e = end_of(o_a, 0);
    let tail = obus(ab, e);
    lemma_obus(ab, e);
    lemma_delimiter_starts(o_a, e);
    assert(x =~= ab.subrange(m, ab.len() as int));
    let n = at_a.len() - 1;
    let at_b = delimiter_starts(obus(ab, m));
    let left = av1_frames(a) + av1_frames(x);
    let right = av1_frames(ab);
    assert forall|i: int| 0 <= i < right.len() implies left[i] == right[i] by {
        if i < n {
            assert(at[i] == at_a[i]);
            assert(at[i + 1] == at_a[i + 1]);
            assert(at_a[i] < at_a[i + 1] < e);
            lemma_header_concat(o_a, tail, at[i], at[i + 1]);
            assert(!holds_sequence_header(tail, at[i], at[i + 1]));
            assert(a.subrange(at[i], at[i + 1]) =~= ab.subrange(at[i], at[i + 1]));
        } else {
            assert(at[i] == at_b[i - n]);
            assert(at[i + 1] == at_b[i + 1 - n]);
        }
    }
    assert(left =~= right);
}

/// What stays buffered when the first chunk holds two delimiters or more.
proof fn lemma_av1_remainder_many(a: Seq<u8>, b: Seq<u8>)
    requires
        forall|i: int| 0 <= i < obus(a, 0).len() ==> has_size(a[(#[trigger] obus(a, 0)[i]).start]),
        delimiter_starts(obus(a, 0)).len() >= 2,
    ensures
        av1_remainder(av1_remainder(a) + b) == av1_remainder(a + b),
{
    let ab = a + b;
    let x = av1_remainder(a) + b;
    let at_a = delimiter_starts(obus(a, 0));
    let at = delimiter_starts(obus(ab, 0));
    let m = at_a.last();
    lemma_av1_chunking_cut(a, b);
    assert(x =~= ab.subrange(m, ab.len() as int));
    let n = at_a.len() - 1;
    let behind = obus(ab, m);
    let at_b = delimiter_starts(behind);
    lemma_obus_shift(ab, m, m);
    lemma_delimiter_starts_moved(behind, m);
    lemma_obus(ab, m);
    lemma_delimiter_starts(behind, ab.len() as int);
    lemma_starts_from(behind, m);
    let last = at.len() - 1;
    assert(at[last] == at_b[last - n]);
    assert(delimiter_starts(obus(x, 0))[last - n] == at_b[last - n] - m);
    if at_b.len() >= 2 {
        assert(av1_remainder(x) =~= av1_remainder(ab));
    } else {
        assert(at[last] == m);
        assert(av1_remainder(x) =~= av1_remainder(ab));
    }
}

/// How an AV1 stream is cut into chunks does not matter, as long as the OBUs
/// that are complete in the first chunk carry a size field: feeding `a` and
/// then `b` hands out the same frames as feeding both at once. It leaves the
/// same bytes buffered too, unless `a` and `b` hold one temporal delimiter
/// between them: complete OBUs in front of it are then dropped early.
pub proof fn law_av1_chunking(a: Seq<u8>, b: Seq<u8>)
    requires
        forall|i: int| 0 <= i < obus(a, 0).len() ==> has_size(a[(#[trigger] obus(a, 0)[i]).start]),
    ensures
        av1_frames(a) + av1_frames(av1_remainder(a) + b) == av1_frames(a + b),
        delimiter_starts(obus(a + b, 0)).len() != 1 ==> av1_remainder(av1_remainder(a) + b)
            == av1_remainder(a + b),
{
    let at_a = delimiter_starts(obus(a, 0));
    if at_a.len() == 0 {
        lemma_av1_chunking_none(a, b);
    } else if at_a.len() == 1 {
        assert(av1_frames(a) =~= Seq::<FrameModel>::empty());
        assert(av1_frames(a) + av1_frames(a + b) =~= av1_frames(a + b));
    } else {
        lemma_av1_chunking_many(a, b);
        lemma_av1_remainder_many(a, b);
    }
}

/// Whether every complete OBU of `s` carries a size field.
pub open spec fn sized(s: Seq<u8>) -> bool {
    forall|i: int| 0 <= i < obus(s, 0).len() ==> has_size(s[(#[trigger] obus(s, 0)[i]).start])
}

proof fn lemma_sized_front(a: Seq<u8>, b: Seq<u8>, pos: int)
    requires
        0 <= pos <= a.len(),
        forall|i: int|
            0 <= i < obus(a + b, pos).len() ==> has_size(
                (a + b)[(#[trigger] obus(a + b, pos)[i]).start],
            ),
    ensures
        forall|i: int| 0 <= i < obus(a, pos).len() ==> has_size(a[(#[trigger] obus(a, pos)[i]).start]),
    decreases a.len() - pos,
{
    lemma_obu_at(a, pos);
    lemma_obu_at(a + b, pos);
    if let Some(o) = obu_at(a, pos) {
        let all = obus(a + b, pos);
        assert((a + b)[pos] == a[pos]);
        if !has_size(a[pos]) {
            assert(obu_at(a + b, pos) is Some);
            assert(all[0].start == pos);
        }
        lemma_obu_kept(a, b, pos);
        let rest = obus(a + b, o.end);
        assert(all =~= seq![o] + rest);
        assert forall|i: int| 0 <= i < rest.len() implies has_size(
            (a + b)[(#[trigger] rest[i]).start],
        ) by {
            assert(all[i + 1] == rest[i]);
        }
        lemma_sized_front(a, b, o.end);
        let here = obus(a, pos);
        assert(here =~= seq![o] + obus(a, o.end));
        assert forall|i: int| 0 <= i < here.len() implies has_size(
            a[(#[trigger] here[i]).start],
        ) by {
            if i > 0 {
                assert(here[i] == obus(a, o.end)[i - 1]);
            }
        }
    }
}

/// A stream read from where an OBU starts is sized if the OBUs from there on
/// are.
proof fn lemma_sized_behind(s: Seq<u8>, m: int)
    requires
        0 <= m <= s.len(),
        forall|i: int| 0 <= i < obus(s, m).len() ==> has_size(s[(#[trigger] obus(s, m)[i]).start]),
    ensures
        sized(s.subrange(m, s.len() as int)),
{
    let t = s.subrange(m, s.len() as int);
    lemma_obus_shift(s, m, m);
    lemma_obus(s, m);
    let behind = obus(s, m);
    assert forall|i: int| 0 <= i < obus(t, 0).len() implies has_size(
        t[(#[trigger] obus(t, 0)[i]).start],
    ) by {
        assert(obus(t, 0)[i].start == behind[i].start - m);
        assert(t[behind[i].start - m] == s[behind[i].start]);
    }
}

/// What a sized stream leaves buffered, and what follows, is sized too.
proof fn lemma_sized_rest(a: Seq<u8>, b: Seq<u8>)
    requires
        sized(a + b),
    ensures
        sized(a),
        sized(av1_remainder(a) + b),
{
    let ab = a + b;
    lemma_sized_front(a, b, 0);
    lemma_obus(a, 0);
    lemma_obus_extend(a, b, 0);
    let o_a = obus(a, 0);
    let o = obus(ab, 0);
    let at = delimiter_starts(o_a);
    if at.len() == 0 {
        let e = end_of(o_a, 0);
        let behind = obus(ab, e);
        assert forall|i: int| 0 <= i < behind.len() implies has_size(
            ab[(#[trigger] behind[i]).start],
        ) by {
            assert(o[o_a.len() + i] == behind[i]);
        }
        lemma_sized_behind(ab, e);
        assert(av1_remainder(a) + b =~= ab.subrange(e, ab.len() as int));
    } else if at.len() >= 2 {
        let j = lemma_last_delimiter(o_a);
        let m = at.last();
        assert(o[j] == o_a[j]);
        lemma_obus_suffix(ab, 0, j);
        let behind = obus(ab, m);
        assert forall|i: int| 0 <= i < behind.len() implies has_size(
            ab[(#[trigger] behind[i]).start],
        ) by {
            assert(o.skip(j)[i] == o[j + i]);
        }
        lemma_sized_behind(ab, m);
        assert(av1_remainder(a) + b =~= ab.subrange(m, ab.len() as int));
    }
}

/// Chunks, one behind the other.
pub open spec fn joined(chunks: Seq<Seq<u8>>) -> Seq<u8>
    decreases chunks.len(),
{
    if chunks.len() == 0 {
        Seq::empty()
    } else {
        chunks[0] + joined(chunks.drop_first())
    }
}

/// The frames that come out, and the bytes that are left, when `chunks` are
/// fed one after the other to an Annex-B splitter with `pending` buffered.
pub open spec fn annexb_fed(k: NalSyntax, pending: Seq<u8>, chunks: Seq<Seq<u8>>) -> (
    Seq<FrameModel>,
    Seq<u8>,
)
    decreases chunks.len(),
{
    if chunks.len() == 0 {
        (Seq::empty(), pending)
    } else {
        let s = pending + chunks[0];
        let (frames, left) = annexb_fed(k, annexb_remainder(k, s), chunks.drop_first());
        (annexb_frames(k, s) + frames, left)
    }
}

/// The frames that come out when `chunks` are fed one after the other to an
/// AV1 splitter with `pending` buffered.
pub open spec fn av1_fed(pending: Seq<u8>, chunks: Seq<Seq<u8>>) -> Seq<FrameModel>
    decreases chunks.len(),
{
    if chunks.len() == 0 {
        Seq::empty()
    } else {
        let s = pending + chunks[0];
        av1_frames(s) + av1_fed(av1_remainder(s), chunks.drop_first())
    }
}

proof fn lemma_annexb_settled(k: NalSyntax, s: Seq<u8>)
    ensures
        annexb_frames(k, annexb_remainder(k, s)) == Seq::<FrameModel>::empty(),
        annexb_remainder(k, annexb_remainder(k, s)) == annexb_remainder(k, s),
{
    law_annexb_chunking(k, s, Seq::empty());
    let r = annexb_remainder(k, s);
    assert(r + Seq::<u8>::empty() =~= r);
    assert(s + Seq::<u8>::empty() =~= s);
    let f = annexb_frames(k, s);
    assert((f + annexb_frames(k, r)).len() == f.len());
    assert(annexb_frames(k, r) =~= Seq::<FrameModel>::empty());
}

proof fn lemma_annexb_any_chunks(k: NalSyntax, pending: Seq<u8>, chunks: Seq<Seq<u8>>)
    requires
        annexb_frames(k, pending) == Seq::<FrameModel>::empty(),
        annexb_remainder(k, pending) == pending,
    ensures
        annexb_fed(k, pending, chunks) == (
            annexb_frames(k, pending + joined(chunks)),
            annexb_remainder(k, pending + joined(chunks)),
        ),
    decreases chunks.len(),
{
    if chunks.len() == 0 {
        assert(pending + joined(chunks) =~= pending);
    } else {
        let s = pending + chunks[0];
        let rest = chunks.drop_first();
        lemma_annexb_settled(k, s);
        lemma_annexb_any_chunks(k, annexb_remainder(k, s), rest);
        law_annexb_chunking(k, s, joined(rest));
        assert(pending + joined(chunks) =~= s + joined(rest));
    }
}

/// Into however many chunks an Annex-B stream is cut, wherever, even one byte
/// at a time: the same frames come out, and the same bytes are left, as when it
/// is fed at once.
pub proof fn law_annexb_any_chunks(k: NalSyntax, chunks: Seq<Seq<u8>>)
    ensures
        annexb_fed(k, Seq::empty(), chunks) == (
            annexb_frames(k, joined(chunks)),
            annexb_remainder(k, joined(chunks)),
        ),
{
    let none = Seq::<u8>::empty();
    assert(delimiters(k, none, 0) =~= Seq::<int>::empty());
    assert(annexb_frames(k, none) =~= Seq::<FrameModel>::empty());
    lemma_annexb_any_chunks(k, none, chunks);
    assert(none + joined(chunks) =~= joined(chunks));
}

proof fn lemma_av1_any_chunks(pending: Seq<u8>, chunks: Seq<Seq<u8>>)
    requires
        av1_frames(pending) == Seq::<FrameModel>::empty(),
        sized(pending + joined(chunks)),
    ensures
        av1_fed(pending, chunks) == av1_frames(pending + joined(chunks)),
    decreases chunks.len(),
{
    if chunks.len() == 0 {
        assert(pending + joined(chunks) =~= pending);
    } else {
        let s = pending + chunks[0];
        let rest = chunks.drop_first();
        let r = av1_remainder(s);
        assert(pending + joined(chunks) =~= s + joined(rest));
        lemma_sized_rest(s, joined(rest));
        law_av1_chunking(s, Seq::empty());
        assert(s + Seq::<u8>::empty() =~= s);
        assert(r + Seq::<u8>::empty() =~= r);
        assert((av1_frames(s) + av1_frames(r)).len() == av1_frames(s).len());
        assert(av1_frames(r) =~= Seq::<FrameModel>::empty());
        lemma_av1_any_chunks(r, rest);
        law_av1_chunking(s, joined(rest));
    }
}

/// Into however many chunks an AV1 stream of sized OBUs is cut, wherever, even
/// one byte at a time: the same frames come out as when it is fed at once.
pub proof fn law_av1_any_chunks(chunks: Seq<Seq<u8>>)
    requires
        sized(joined(chunks)),
    ensures
        av1_fed(Seq::empty(), chunks) == av1_frames(joined(chunks)),
{
    let none = Seq::<u8>::empty();
    assert(none + joined(chunks) =~= joined(chunks));
    assert(obus(none, 0) =~= Seq::<Obu>::empty());
    assert(av1_frames(none) =~= Seq::<FrameModel>::empty());
    lemma_av1_any_chunks(none, chunks);
}

/// Whether pushing `data` takes a splitter from `before` to `after` and the
/// frames handed out so far from `out` to `out_after`.
pub open spec fn pushed<S: FrameSplitter>(
    before: S,
    data: Seq<u8>,
    out: Seq<FrameModel>,
    after: S,
    out_after: Seq<FrameModel>,
) -> bool {
    &&& out_after == out + before.complete_frames(before.pending() + data)
    &&& after.pending() == before.remainder(before.pending() + data)
}

/// Two H.264 splitters in equal states, one of which gets `x` and then `y` and
/// the other both at once, hand out the same frames and keep the same bytes.
pub proof fn law_h264_pushes_can_be_cut(
    s: (H264Splitter, H264Splitter, H264Splitter),
    t: (H264Splitter, H264Splitter),
    x: Seq<u8>,
    y: Seq<u8>,
    out: Seq<FrameModel>,
    s_out: (Seq<FrameModel>, Seq<FrameModel>),
    t_out: Seq<FrameModel>,
)
    requires
        s.0.pending() == t.0.pending(),
        pushed(s.0, x, out, s.1, s_out.0),
        pushed(s.1, y, s_out.0, s.2, s_out.1),
        pushed(t.0, x + y, out, t.1, t_out),
    ensures
        t_out == s_out.1,
        t.1.pending() == s.2.pending(),
{
    let p = s.0.pending();
    law_annexb_chunking(NalSyntax::H264, p + x, y);
    assert(p + x + y =~= p + (x + y));
    assert(t_out =~= s_out.1);
}

/// Two HEVC splitters in equal states, one of which gets `x` and then `y` and
/// the other both at once, hand out the same frames and keep the same bytes.
pub proof fn law_hevc_pushes_can_be_cut(
    s: (HevcSplitter, HevcSplitter, HevcSplitter),
    t: (HevcSplitter, HevcSplitter),
    x: Seq<u8>,
    y: Seq<u8>,
    out: Seq<FrameModel>,
    s_out: (Seq<FrameModel>, Seq<FrameModel>),
    t_out: Seq<FrameModel>,
)
    requires
        s.0.pending() == t.0.pending(),
        pushed(s.0, x, out, s.1, s_out.0),
        pushed(s.1, y, s_out.0, s.2, s_out.1),
        pushed(t.0, x + y, out, t.1, t_out),
    ensures
        t_out == s_out.1,
        t.1.pending() == s.2.pending(),
{
    let p = s.0.pending();
    law_annexb_chunking(NalSyntax::Hevc, p + x, y);
    assert(p + x + y =~= p + (x + y));
    assert(t_out =~= s_out.1);
}

/// Two AV1 splitters in equal states, one of which gets `x` and then `y` and
/// the other both at once, hand out the same frames, if every OBU of the stream
/// carries a size field.
pub proof fn law_av1_pushes_can_be_cut(
    s: (Av1Splitter, Av1Splitter, Av1Splitter),
    t: (Av1Splitter, Av1Splitter),
    x: Seq<u8>,
    y: Seq<u8>,
    out: Seq<FrameModel>,
    s_out: (Seq<FrameModel>, Seq<FrameModel>),
    t_out: Seq<FrameModel>,
)
    requires
        s.0.pending() == t.0.pending(),
        sized(s.0.pending() + x + y),
        pushed(s.0, x, out, s.1, s_out.0),
        pushed(s.1, y, s_out.0, s.2, s_out.1),
        pushed(t.0, x + y, out, t.1, t_out),
    ensures
        t_out == s_out.1,
{
    let p = s.0.pending();
    lemma_sized_rest(p + x, y);
    law_av1_chunking(p + x, y);
    assert(p + x + y =~= p + (x + y));
    assert(t_out =~= s_out.1);
}

/// A push to an H.264 splitter whose stream starts with a delimiter loses,
/// repeats and reorders no byte: the access units that it hands out, followed
/// by what is then buffered, are what was buffered, followed by the data.
pub proof fn law_h264_push_loses_nothing(
    before: H264Splitter,
    data: Seq<u8>,
    out: Seq<FrameModel>,
    after: H264Splitter,
    out_after: Seq<FrameModel>,
)
    requires
        pushed(before, data, out, after, out_after),
        delimiter_at(NalSyntax::H264, before.pending() + data, 0),
    ensures
        out_after.len() >= out.len(),
        out_after.take(out.len() as int) == out,
        payloads(out_after.skip(out.len() as int)) + after.pending() == before.pending() + data,
        after.pending().len() + payloads(out_after.skip(out.len() as int)).len()
            == before.pending().len() + data.len(),
{
    let s = before.pending() + data;
    law_annexb_loses_nothing(NalSyntax::H264, s);
    lemma_first_delimiter_unique(NalSyntax::H264, s, 0, 0);
    assert(out_after.skip(out.len() as int) =~= annexb_frames(NalSyntax::H264, s));
    assert(out_after.take(out.len() as int) =~= out);
    assert(s.subrange(0, s.len() as int) =~= s);
}

/// The low five bits of a byte, and its six bits above the lowest, as
/// remainders.
proof fn lemma_nal_bits(b: u8)
    ensures
        b & 0x1F == b % 32,
        (b >> 1) & 0x3F == (b / 2) % 64,
{
    assert(b & 0x1F == b % 32) by (bit_vector);
    assert((b >> 1) & 0x3F == (b / 2) % 64) by (bit_vector);
}

/// The key flag of an Annex-B frame says whether its access unit holds a NAL
/// unit of a key picture. Wherever in the unit the bytes `00 00 01` stand, the
/// byte behind them opens a NAL unit: an IDR slice is type 5 in H.264, where
/// the type is the byte modulo 32; a picture that can be decoded on its own is
/// one of the types 16 to 23 in HEVC, where the type is half the byte modulo
/// 64.
pub proof fn law_key_frames_hold_a_key_slice(k: NalSyntax, s: Seq<u8>, i: int)
    requires
        0 <= i < annexb_frames(k, s).len(),
    ensures
        ({
            let unit = payload_of(annexb_frames(k, s)[i]);
            annexb_frames(k, s)[i].is_keyframe <==> exists|j: int|
                0 <= j && j + 3 < unit.len() && #[trigger] unit[j] == 0 && unit[j + 1] == 0
                    && unit[j + 2] == 1 && match k {
                    NalSyntax::H264 => unit[j + 3] % 32 == 5,
                    NalSyntax::Hevc => 16 <= (unit[j + 3] / 2) % 64 <= 23,
                }
        }),
{
    let at = delimiters(k, s, 0);
    let unit = s.subrange(at[i], at[i + 1]);
    law_frame_carries_its_unit(unit, holds_key_slice(k, unit));
    assert(annexb_frames(k, s)[i] == frame_of(unit, holds_key_slice(k, unit)));
    if holds_key_slice(k, unit) {
        let j = choose|j: int| #[trigger] key_slice_at(k, unit, j);
        lemma_nal_bits(unit[j + 3]);
        assert(unit[j] == 0);
    }
    assert forall|j: int|
        0 <= j && j + 3 < unit.len() && #[trigger] unit[j] == 0 && unit[j + 1] == 0 && unit[j + 2]
            == 1 && match k {
            NalSyntax::H264 => unit[j + 3] % 32 == 5,
            NalSyntax::Hevc => 16 <= (unit[j + 3] / 2) % 64 <= 23,
        } implies holds_key_slice(k, unit) by {
        lemma_nal_bits(unit[j + 3]);
        assert(key_slice_at(k, unit, j));
    }
}

/// Where a key slice stands in its access unit does not matter: bytes in front
/// of it, such as parameter sets and SEI messages, and bytes behind it leave
/// the unit a key picture.
pub proof fn law_key_slice_counts_anywhere(
    k: NalSyntax,
    before: Seq<u8>,
    unit: Seq<u8>,
    after: Seq<u8>,
)
    requires
        holds_key_slice(k, unit),
    ensures
        holds_key_slice(k, before + unit + after),
{
    let i = choose|i: int| #[trigger] key_slice_at(k, unit, i);
    let all = before + unit + after;
    assert forall|j: int| 0 <= j < unit.len() implies #[trigger] unit[j] == all[before.len() + j] by {}
    assert(unit[i] == all[before.len() + i]);
    assert(unit[i + 1] == all[before.len() + i + 1]);
    assert(unit[i + 2] == all[before.len() + i + 2]);
    assert(unit[i + 3] == all[before.len() + i + 3]);
    assert(key_slice_at(k, all, before.len() + i));
}

/// Whether the bytes of an access unit delimiter stand at `i`: two or three
/// zeros, a one, and a header of type 9 (H.264) or 35 (HEVC).
pub open spec fn delimiter_bytes(k: NalSyntax, s: Seq<u8>, i: int) -> bool {
    let zeros: int = if s[i + 2] == 0 {
        3
    } else {
        2
    };
    &&& 0 <= i
    &&& i + zeros + 1 < s.len()
    &&& forall|j: int| i <= j < i + zeros ==> #[trigger] s[j] == 0
    &&& s[i + zeros] == 1
    &&& match k {
        NalSyntax::H264 => s[i + zeros + 1] % 32 == 9,
        NalSyntax::Hevc => (s[i + zeros + 1] / 2) % 64 == 35,
    }
}

proof fn lemma_delimiter_bytes(k: NalSyntax, s: Seq<u8>, i: int)
    ensures
        delimiter_bytes(k, s, i) == delimiter_at(k, s, i),
{
    if 0 <= i && i + 3 < s.len() {
        lemma_nal_bits(s[i + 3]);
        if i + 4 < s.len() {
            lemma_nal_bits(s[i + 4]);
        }
        assert(s[i] == 0 || s[i] != 0);
        assert(s[i + 1] == 0 || s[i + 1] != 0);
    }
}

/// A delimiter behind the first five bytes of an access unit, or of what stays
/// buffered, would have been found.
proof fn lemma_between_delimiters(k: NalSyntax, s: Seq<u8>, from: int, m: int, p: int)
    requires
        0 <= from,
        0 <= m < delimiters(k, s, from).len(),
        delimiters(k, s, from)[m] + 5 <= p,
        m + 1 < delimiters(k, s, from).len() ==> p < delimiters(k, s, from)[m + 1],
    ensures
        !delimiter_at(k, s, p),
    decreases m,
{
    lemma_first_delimiter(k, s, from);
    let q = first_delimiter(k, s, from)->0;
    let rest = delimiters(k, s, q + 5);
    assert(delimiters(k, s, from) =~= seq![q] + rest);
    lemma_first_delimiter(k, s, q + 5);
    if m > 0 {
        assert(delimiters(k, s, from)[m] == rest[m - 1]);
        if m < rest.len() {
            assert(delimiters(k, s, from)[m + 1] == rest[m]);
        }
        lemma_between_delimiters(k, s, q + 5, m - 1, p);
    } else if rest.len() > 0 {
        assert(delimiters(k, s, from)[1] == rest[0]);
        assert(rest[0] == first_delimiter(k, s, q + 5)->0);
    }
}

/// Every access unit handed out starts with a delimiter and holds no other
/// behind it.
pub proof fn law_annexb_units_hold_one_delimiter(k: NalSyntax, s: Seq<u8>, i: int)
    requires
        0 <= i < annexb_frames(k, s).len(),
    ensures
        ({
            let unit = payload_of(annexb_frames(k, s)[i]);
            &&& unit.len() >= 5
            &&& delimiter_bytes(k, unit, 0)
            &&& forall|j: int| 5 <= j ==> !#[trigger] delimiter_bytes(k, unit, j)
        }),
{
    let at = delimiters(k, s, 0);
    let unit = s.subrange(at[i], at[i + 1]);
    law_frame_carries_its_unit(unit, holds_key_slice(k, unit));
    law_annexb_frames_start_with_delimiter(k, s, i);
    lemma_delimiter_bytes(k, unit, 0);
    lemma_delimiters(k, s, 0);
    assert forall|j: int| 5 <= j implies !#[trigger] delimiter_bytes(k, unit, j) by {
        lemma_delimiter_bytes(k, unit, j);
        if delimiter_at(k, unit, j) {
            assert(delimiter_at(k, s, at[i] + j));
            lemma_between_delimiters(k, s, 0, i, at[i] + j);
        }
    }
}

/// What is skipped in front of the first access unit holds no delimiter.
pub proof fn law_annexb_skips_no_unit(k: NalSyntax, s: Seq<u8>)
    ensures
        ({
            let handed = payloads(annexb_frames(k, s)) + annexb_remainder(k, s);
            let skipped = s.len() - handed.len();
            &&& 0 <= skipped
            &&& s == s.take(skipped) + handed
            &&& forall|j: int| 0 <= j < skipped ==> !#[trigger] delimiter_bytes(k, s, j)
        }),
{
    let handed = payloads(annexb_frames(k, s)) + annexb_remainder(k, s);
    law_annexb_loses_nothing(k, s);
    lemma_first_delimiter(k, s, 0);
    let skipped = s.len() - handed.len();
    if first_delimiter(k, s, 0) is None {
        assert(handed =~= s);
    }
    assert(s =~= s.take(skipped) + handed);
    assert forall|j: int| 0 <= j < skipped implies !#[trigger] delimiter_bytes(k, s, j) by {
        lemma_delimiter_bytes(k, s, j);
    }
}

/// Nothing complete is held back: what stays buffered holds no delimiter but
/// the one it starts with, and it starts with one unless the stream has none.
pub proof fn law_annexb_holds_back_no_unit(k: NalSyntax, s: Seq<u8>, i: int)
    ensures
        forall|j: int| 5 <= j ==> !#[trigger] delimiter_bytes(k, annexb_remainder(k, s), j),
        delimiter_bytes(k, s, i) ==> delimiter_bytes(k, annexb_remainder(k, s), 0),
{
    let at = delimiters(k, s, 0);
    let rest = annexb_remainder(k, s);
    lemma_first_delimiter(k, s, 0);
    lemma_delimiters(k, s, 0);
    lemma_delimiter_bytes(k, s, i);
    lemma_delimiter_bytes(k, rest, 0);
    if at.len() > 0 {
        let last = at.len() - 1;
        assert(delimiter_at(k, s, at[last]));
        assert(delimiter_at(k, rest, 0));
    }
    assert forall|j: int| 5 <= j implies !#[trigger] delimiter_bytes(k, rest, j) by {
        lemma_delimiter_bytes(k, rest, j);
        if delimiter_at(k, rest, j) {
            if at.len() > 0 {
                let last = at.len() - 1;
                assert(delimiter_at(k, s, at[last] + j));
                lemma_between_delimiters(k, s, 0, last, at[last] + j);
            }
        }
    }
}

/// The key flag of the frames that an H.264 splitter hands out.
pub proof fn law_h264_key_frames(x: H264Splitter, s: Seq<u8>, i: int)
    requires
        0 <= i < x.complete_frames(s).len(),
    ensures
        ({
            let unit = payload_of(x.complete_frames(s)[i]);
            x.complete_frames(s)[i].is_keyframe <==> exists|j: int|
                0 <= j && j + 3 < unit.len() && #[trigger] unit[j] == 0 && unit[j + 1] == 0
                    && unit[j + 2] == 1 && unit[j + 3] % 32 == 5
        }),
{
    law_key_frames_hold_a_key_slice(NalSyntax::H264, s, i);
}

/// The key flag of the frames that an HEVC splitter hands out.
pub proof fn law_hevc_key_frames(x: HevcSplitter, s: Seq<u8>, i: int)
    requires
        0 <= i < x.complete_frames(s).len(),
    ensures
        ({
            let unit = payload_of(x.complete_frames(s)[i]);
            x.complete_frames(s)[i].is_keyframe <==> exists|j: int|
                0 <= j && j + 3 < unit.len() && #[trigger] unit[j] == 0 && unit[j + 1] == 0
                    && unit[j + 2] == 1 && 16 <= (unit[j + 3] / 2) % 64 <= 23
        }),
{
    law_key_frames_hold_a_key_slice(NalSyntax::Hevc, s, i);
}

// ── AV1 streams, byte by byte ──────────────────────────────────────

/// The LEB128 form of a number: seven bits a byte, least significant first,
/// and 128 added to every byte but the last.
pub open spec fn leb128_bytes(v: nat) -> Seq<u8>
    decreases v,
{
    if v < 128 {
        seq![v as u8]
    } else {
        seq![(128 + v % 128) as u8] + leb128_bytes(v / 128)
    }
}

proof fn lemma_leb128_bytes(v: nat, n: int)
    requires
        1 <= n,
        v < pow128(n),
    ensures
        1 <= leb128_bytes(v).len() <= n,
        leb128_bytes(v).last() < 128,
        forall|j: int| 0 <= j < leb128_bytes(v).len() - 1 ==> #[trigger] leb128_bytes(v)[j] >= 128,
    decreases n,
{
    reveal_with_fuel(pow128, 2);
    if v >= 128 {
        assert(n > 1) by {
            if n == 1 {
                assert(pow128(1) == 128);
            }
        }
        assert(v / 128 < pow128(n - 1)) by (nonlinear_arith)
            requires
                v < 128 * pow128(n - 1),
        ;
        lemma_leb128_bytes(v / 128, n - 1);
        let rest = leb128_bytes(v / 128);
        assert forall|j: int| 0 <= j < leb128_bytes(v).len() - 1 implies #[trigger] leb128_bytes(
            v,
        )[j] >= 128 by {
            if j > 0 {
                assert(leb128_bytes(v)[j] == rest[j - 1]);
            }
        }
    }
}

/// The first byte of a LEB128 number counts once, and the others 128 times
/// what they count on their own.
proof fn lemma_leb128_value_first(s: Seq<u8>, n: int)
    requires
        1 <= n <= s.len(),
    ensures
        leb128_value(s, n) == s[0] % 128 + 128 * leb128_value(s.drop_first(), n - 1),
    decreases n,
{
    reveal_with_fuel(leb128_value, 2);
    reveal_with_fuel(pow128, 2);
    if n > 1 {
        lemma_leb128_value_first(s, n - 1);
        let low = (s[n - 1] % 128) as int;
        let scale = pow128(n - 2);
        assert(s.drop_first()[n - 2] == s[n - 1]);
        assert(pow128(n - 1) == 128 * scale);
        assert(low * (128 * scale) == 128 * (low * scale)) by (nonlinear_arith);
    }
}

proof fn lemma_leb128_value_of(v: nat, rest: Seq<u8>)
    ensures
        leb128_value(leb128_bytes(v) + rest, leb128_bytes(v).len() as int) == v,
    decreases v,
{
    let s = leb128_bytes(v) + rest;
    lemma_leb128_value_first(s, leb128_bytes(v).len() as int);
    if v < 128 {
        assert(s[0] == v);
    } else {
        lemma_leb128_value_of(v / 128, rest);
        assert(s.drop_first() =~= leb128_bytes(v / 128) + rest);
        assert(s[0] == (128 + v % 128) as u8);
    }
}

/// Reading a LEB128 number gives back the number that was written, and how
/// many bytes it took, whatever follows it; up to eight bytes are read.
pub proof fn law_leb128_round_trip(v: nat, rest: Seq<u8>)
    requires
        v < 0x100_0000_0000_0000,
    ensures
        leb128(leb128_bytes(v) + rest) == Some((v as int, leb128_bytes(v).len() as int)),
        leb128_bytes(v).len() <= 8,
{
    reveal_with_fuel(pow128, 9);
    assert(pow128(8) == 0x100_0000_0000_0000);
    let s = leb128_bytes(v) + rest;
    lemma_leb128_bytes(v, 8);
    lemma_leb128_value_of(v, rest);
    lemma_leb128_size(s, 0);
    let n = leb128_bytes(v).len() as int;
    assert(s[n - 1] == leb128_bytes(v).last());
    assert forall|j: int| 0 <= j < n - 1 implies #[trigger] s[j] >= 128 by {
        assert(s[j] == leb128_bytes(v)[j]);
    }
}

proof fn lemma_obu_bits(h: u8)
    ensures
        (h >> 3) & 0x0F == (h / 8) % 16,
        has_extension(h) == ((h / 4) % 2 == 1),
        has_size(h) == ((h / 2) % 2 == 1),
{
    assert((h >> 3) & 0x0F == (h / 8) % 16) by (bit_vector);
    assert((h & 0x04 != 0) == ((h / 4) % 2 == 1)) by (bit_vector);
    assert((h & 0x02 != 0) == ((h / 2) % 2 == 1)) by (bit_vector);
}

/// An OBU with a size field is read back as it was written: its header byte
/// holds the type above three bits, then the extension bit, the size bit and
/// a reserved bit; one extension byte follows where the header says so, then
/// the length of the body in LEB128, then the body. It ends behind its body,
/// whatever surrounds it.
pub proof fn law_obu_round_trip(
    before: Seq<u8>,
    kind: u8,
    extension: Option<u8>,
    body: Seq<u8>,
    after: Seq<u8>,
)
    requires
        kind < 16,
        body.len() < 0x100_0000_0000_0000,
    ensures
        ({
            let obu = match extension {
                None => seq![(8 * kind + 2) as u8],
                Some(x) => seq![(8 * kind + 6) as u8, x],
            } + leb128_bytes(body.len()) + body;
            obu_at(before + obu + after, before.len() as int) == Some(
                Obu {
                    start: before.len() as int,
                    end: (before.len() + obu.len()) as int,
                    kind,
                },
            )
        }),
{
    let head = match extension {
        None => seq![(8 * kind + 2) as u8],
        Some(x) => seq![(8 * kind + 6) as u8, x],
    };
    let obu = head + leb128_bytes(body.len()) + body;
    let s = before + obu + after;
    let pos = before.len() as int;
    assert(s[pos] == head[0]);
    lemma_obu_bits(s[pos]);
    law_leb128_round_trip(body.len(), body + after);
    let at = pos + head.len();
    assert(s.subrange(at, s.len() as int) =~= leb128_bytes(body.len()) + (body + after));
}

/// An OBU without a size field takes all that is there.
pub proof fn law_unsized_obu_takes_the_rest(before: Seq<u8>, header: u8, after: Seq<u8>)
    requires
        (header / 2) % 2 == 0,
        (header / 4) % 2 == 0 || after.len() > 0,
    ensures
        obu_at(before.push(header) + after, before.len() as int) == Some(
            Obu {
                start: before.len() as int,
                end: (before.len() + 1 + after.len()) as int,
                kind: (header / 8) % 16,
            },
        ),
{
    lemma_obu_bits(header);
    assert((before.push(header) + after)[before.len() as int] == header);
}

/// Whether a member of `o` of type 2 starts at `p`.
spec fn delimiter_from(o: Seq<Obu>, p: int) -> bool {
    exists|m: int| 0 <= m < o.len() && (#[trigger] o[m]).kind == 2 && o[m].start == p
}

/// The starts of the delimiters among `o` are the starts of its members of
/// type 2.
proof fn lemma_delimiter_members(o: Seq<Obu>)
    ensures
        forall|i: int|
            0 <= i < delimiter_starts(o).len() ==> delimiter_from(
                o,
                #[trigger] delimiter_starts(o)[i],
            ),
        forall|m: int|
            0 <= m < o.len() && (#[trigger] o[m]).kind == 2 ==> delimiter_starts(o).contains(
                o[m].start,
            ),
    decreases o.len(),
{
    if o.len() > 0 {
        let front = o.drop_last();
        lemma_delimiter_members(front);
        let before = delimiter_starts(front);
        let all = delimiter_starts(o);
        let last = o.len() - 1;
        assert forall|i: int| 0 <= i < all.len() implies delimiter_from(o, #[trigger] all[i]) by {
            if i < before.len() {
                assert(all[i] == before[i]);
                assert(delimiter_from(front, before[i]));
                let m = choose|m: int|
                    0 <= m < front.len() && (#[trigger] front[m]).kind == 2 && front[m].start
                        == before[i];
                assert(o[m] == front[m]);
            } else {
                assert(o[last].start == all[i]);
            }
        }
        assert forall|m: int| 0 <= m < o.len() && (#[trigger] o[m]).kind == 2 implies all.contains(
            o[m].start,
        ) by {
            if m < last {
                assert(front[m] == o[m]);
                let i = choose|i: int| 0 <= i < before.len() && before[i] == o[m].start;
                assert(all[i] == before[i]);
            } else {
                assert(all[all.len() - 1] == o[m].start);
            }
        }
    }
}

/// A frame of an AV1 stream runs from one temporal delimiter (type 2) to the
/// next one, and is a key frame exactly when an OBU of type 1, a sequence
/// header, starts between them. The type of an OBU is its first byte divided
/// by 8, modulo 16.
pub proof fn law_av1_units(s: Seq<u8>, i: int)
    requires
        0 <= i < av1_frames(s).len(),
    ensures
        exists|a: int, b: int|
            #![trigger obus(s, 0)[a], obus(s, 0)[b]]
            {
                &&& 0 <= a < b < obus(s, 0).len()
                &&& payload_of(av1_frames(s)[i]) == s.subrange(
                    obus(s, 0)[a].start,
                    obus(s, 0)[b].start,
                )
                &&& (s[obus(s, 0)[a].start] / 8) % 16 == 2
                &&& (s[obus(s, 0)[b].start] / 8) % 16 == 2
                &&& forall|m: int|
                    a < m < b ==> (s[(#[trigger] obus(s, 0)[m]).start] / 8) % 16 != 2
                &&& av1_frames(s)[i].is_keyframe <==> exists|m: int|
                    a < m < b && (s[(#[trigger] obus(s, 0)[m]).start] / 8) % 16 == 1
            },
{
    let o = obus(s, 0);
    let at = delimiter_starts(o);
    let f = av1_frames(s)[i];
    lemma_obus(s, 0);
    lemma_delimiter_starts(o, s.len() as int);
    lemma_delimiter_members(o);
    law_frame_carries_its_unit(
        s.subrange(at[i], at[i + 1]),
        holds_sequence_header(o, at[i], at[i + 1]),
    );
    assert forall|m: int| 0 <= m < o.len() implies (#[trigger] o[m]).kind == (s[o[m].start] / 8)
        % 16 by {
        lemma_obu_bits(s[o[m].start]);
        assert(obu_at(s, o[m].start) == Some(o[m]));
    }
    assert(delimiter_from(o, at[i]));
    assert(delimiter_from(o, at[i + 1]));
    let a = choose|m: int| 0 <= m < o.len() && (#[trigger] o[m]).kind == 2 && o[m].start == at[i];
    let b = choose|m: int|
        0 <= m < o.len() && (#[trigger] o[m]).kind == 2 && o[m].start == at[i + 1];
    assert(at[i] < at[i + 1]);
    assert(a < b);
    assert forall|m: int| a < m < b implies (s[(#[trigger] o[m]).start] / 8) % 16 != 2 by {
        if o[m].kind == 2 {
            assert(at.contains(o[m].start));
            let q = choose|q: int| 0 <= q < at.len() && at[q] == o[m].start;
            assert(o[a].end <= o[m].start);
            assert(o[m].end <= o[b].start);
            assert(q <= i || q > i);
        }
    }
    if f.is_keyframe {
        let m = choose|m: int|
            0 <= m < o.len() && (#[trigger] o[m]).kind == OBU_SEQUENCE_HEADER && at[i] < o[m].start
                < at[i + 1];
        assert(a < m < b);
        assert((s[o[m].start] / 8) % 16 == 1);
    }
    assert forall|m: int| a < m < b && (s[(#[trigger] o[m]).start] / 8) % 16 == 1 implies f.is_keyframe by {
        assert(o[a].end <= o[m].start);
        assert(o[m].end <= o[b].start);
        assert(o[m].kind == OBU_SEQUENCE_HEADER);
    }
    assert(o[a].start == at[i] && o[b].start == at[i + 1]);
}

/// Nothing complete is held back: of the OBUs that are there, at most one
/// stays buffered that is a temporal delimiter, and it starts the remainder.
pub proof fn law_av1_holds_back_no_unit(s: Seq<u8>, m: int)
    requires
        0 <= m < obus(s, 0).len(),
        (s[obus(s, 0)[m].start] / 8) % 16 == 2,
        forall|q: int|
            m < q < obus(s, 0).len() ==> (s[(#[trigger] obus(s, 0)[q]).start] / 8) % 16 != 2,
        exists|q: int|
            0 <= q < m && (s[(#[trigger] obus(s, 0)[q]).start] / 8) % 16 == 2,
    ensures
        av1_remainder(s) == s.subrange(obus(s, 0)[m].start, s.len() as int),
        av1_frames(s).len() > 0,
{
    let o = obus(s, 0);
    let at = delimiter_starts(o);
    lemma_obus(s, 0);
    lemma_delimiter_starts(o, s.len() as int);
    lemma_delimiter_members(o);
    assert forall|j: int| 0 <= j < o.len() implies (#[trigger] o[j]).kind == (s[o[j].start] / 8)
        % 16 by {
        lemma_obu_bits(s[o[j].start]);
        assert(obu_at(s, o[j].start) == Some(o[j]));
    }
    let q = choose|q: int| 0 <= q < m && (s[(#[trigger] o[q]).start] / 8) % 16 == 2;
    assert(at.contains(o[m].start));
    assert(at.contains(o[q].start));
    assert(o[q].end <= o[m].start);
    let x = choose|x: int| 0 <= x < at.len() && at[x] == o[m].start;
    let y = choose|y: int| 0 <= y < at.len() && at[y] == o[q].start;
    assert(x != y);
    let last = at.len() - 1;
    assert(delimiter_from(o, at[last]));
    let z = choose|z: int| 0 <= z < o.len() && (#[trigger] o[z]).kind == 2 && o[z].start
        == at[last];
    assert(z <= m);
    if z < m {
        assert(o[z].end <= o[m].start);
        assert(at[x] > at[last]);
    }
}

} // verus!
