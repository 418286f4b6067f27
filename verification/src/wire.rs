//! Little-endian integers, flags and names in byte buffers.

use vstd::prelude::*;
use vstd::slice::slice_subrange;
use vstd::utf8::{decode_utf8, encode_utf8, valid_utf8};

verus! {

/// What `String::from_utf8_lossy` makes of bytes that are not valid UTF-8.
pub uninterp spec fn utf8_repaired(bytes: Seq<u8>) -> Seq<char>;

/// The text that `bytes` spell: their UTF-8 decoding, or a repaired one.
pub open spec fn text_of(bytes: Seq<u8>) -> Seq<char> {
    if valid_utf8(bytes) {
        decode_utf8(bytes)
    } else {
        utf8_repaired(bytes)
    }
}

/// `String::from_utf8_lossy` gives back the text of valid UTF-8 unchanged.
/// Of other bytes nothing more is claimed than that the result depends on
/// them alone.
#[verifier::external_body]
pub(crate) fn text_from_bytes(bytes: &[u8]) -> (text: String)
    ensures
        text@ == (if valid_utf8(bytes@) {
            decode_utf8(bytes@)
        } else {
            utf8_repaired(bytes@)
        }),
{
    String::from_utf8_lossy(bytes).into_owned()
}

/// The two bytes of `x`, low byte first.
pub open spec fn le16(x: u16) -> Seq<u8> {
    seq![(x % 256) as u8, (x / 256) as u8]
}

/// The four bytes of `x`, low byte first.
pub open spec fn le32(x: u32) -> Seq<u8> {
    le16((x % 65536) as u16) + le16((x / 65536) as u16)
}

/// The eight bytes of `x`, low byte first.
pub open spec fn le64(x: u64) -> Seq<u8> {
    le32((x % 0x1_0000_0000) as u32) + le32((x / 0x1_0000_0000) as u32)
}

/// The number that stands in two's complement for `x`.
pub open spec fn twos_complement(x: i16) -> u16 {
    if x < 0 {
        (x + 65536) as u16
    } else {
        x as u16
    }
}

/// The number that `x` stands for in two's complement.
pub open spec fn signed(x: u16) -> i16 {
    if x >= 32768 {
        (x - 65536) as i16
    } else {
        x as i16
    }
}

/// The number in the two bytes at `at`.
pub open spec fn u16_at(d: Seq<u8>, at: int) -> u16 {
    (d[at] + 256 * d[at + 1]) as u16
}

/// The signed number in the two bytes at `at`.
pub open spec fn i16_at(d: Seq<u8>, at: int) -> i16 {
    signed(u16_at(d, at))
}

/// The number in the four bytes at `at`.
pub open spec fn u32_at(d: Seq<u8>, at: int) -> u32 {
    (u16_at(d, at) + 65536 * u16_at(d, at + 2)) as u32
}

/// The number in the eight bytes at `at`.
pub open spec fn u64_at(d: Seq<u8>, at: int) -> u64 {
    (u32_at(d, at) + 0x1_0000_0000 * u32_at(d, at + 4)) as u64
}

/// The byte of a flag.
pub open spec fn flag(b: bool) -> u8 {
    if b {
        1
    } else {
        0
    }
}

/// A record of a list: a head of fixed size, then a name.
pub struct Record {
    pub head: Seq<u8>,
    pub name: Seq<char>,
}

/// The length field of a name: its byte length, cut to sixteen bits.
pub open spec fn name_len(name: Seq<char>) -> u16 {
    (encode_utf8(name).len() % 65536) as u16
}

/// A record's bytes: the head, the length of the name, the name.
pub open spec fn record_bytes(r: Record) -> Seq<u8> {
    r.head + le16(name_len(r.name)) + encode_utf8(r.name)
}

/// The bytes of a list of records, one behind the other.
pub open spec fn records_bytes(rs: Seq<Record>) -> Seq<u8>
    decreases rs.len(),
{
    if rs.len() == 0 {
        Seq::empty()
    } else {
        records_bytes(rs.drop_last()) + record_bytes(rs.last())
    }
}

/// Where the record at `pos`, with a head of `head` bytes, ends; `None` if it
/// is cut short.
pub open spec fn record_end(d: Seq<u8>, pos: int, head: int) -> Option<int> {
    if pos + head + 2 > d.len() || pos + head + 2 + u16_at(d, pos + head) > d.len() {
        None
    } else {
        Some(pos + head + 2 + u16_at(d, pos + head))
    }
}

/// The record between `pos` and `end`.
pub open spec fn record_between(d: Seq<u8>, pos: int, head: int, end: int) -> Record {
    Record {
        head: d.subrange(pos, pos + head),
        name: text_of(d.subrange(pos + head + 2, end)),
    }
}

/// The `count` records from `pos` on; `None` if one of them is cut short.
pub open spec fn parse_records(d: Seq<u8>, pos: int, head: int, count: nat) -> Option<Seq<Record>>
    decreases count,
{
    if count == 0 {
        Some(Seq::empty())
    } else {
        match record_end(d, pos, head) {
            None => None,
            Some(end) => match parse_records(d, end, head, (count - 1) as nat) {
                None => None,
                Some(rest) => Some(seq![record_between(d, pos, head, end)] + rest),
            },
        }
    }
}

/// Appends `b` to `buf`.
pub(crate) fn put_bytes(buf: &mut Vec<u8>, b: &[u8])
    ensures
        final(buf)@ == old(buf)@ + b@,
{
    buf.extend_from_slice(b);
    proof {
        assert(buf@ =~= old(buf)@ + b@);
    }
}

pub(crate) fn put_u16(buf: &mut Vec<u8>, x: u16)
    ensures
        final(buf)@ == old(buf)@ + le16(x),
{
    buf.push((x % 256) as u8);
    buf.push((x / 256) as u8);
    proof {
        assert(buf@ =~= old(buf)@ + le16(x));
    }
}

pub(crate) fn put_i16(buf: &mut Vec<u8>, x: i16)
    ensures
        final(buf)@ == old(buf)@ + le16(twos_complement(x)),
{
    let u: u16 = if x < 0 {
        (x as i32 + 65536) as u16
    } else {
        x as u16
    };
    put_u16(buf, u);
}

pub(crate) fn put_u32(buf: &mut Vec<u8>, x: u32)
    ensures
        final(buf)@ == old(buf)@ + le32(x),
{
    put_u16(buf, (x % 65536) as u16);
    put_u16(buf, (x / 65536) as u16);
    proof {
        assert(buf@ =~= old(buf)@ + le32(x));
    }
}

pub(crate) fn put_u64(buf: &mut Vec<u8>, x: u64)
    ensures
        final(buf)@ == old(buf)@ + le64(x),
{
    put_u32(buf, (x % 0x1_0000_0000) as u32);
    put_u32(buf, (x / 0x1_0000_0000) as u32);
    proof {
        assert(buf@ =~= old(buf)@ + le64(x));
    }
}

pub(crate) fn put_flag(buf: &mut Vec<u8>, b: bool)
    ensures
        final(buf)@ == old(buf)@.push(flag(b)),
{
    if b {
        buf.push(1);
    } else {
        buf.push(0);
    }
}

/// Appends the length and the bytes of a name.
pub(crate) fn put_name(buf: &mut Vec<u8>, name: &String)
    ensures
        final(buf)@ == old(buf)@ + le16(name_len(name@)) + encode_utf8(name@),
{
    let bytes = name.as_str().as_bytes();
    put_u16(buf, (bytes.len() % 65536) as u16);
    put_bytes(buf, bytes);
}

pub(crate) fn get_u16(d: &[u8], at: usize) -> (x: u16)
    requires
        at + 1 < d@.len(),
    ensures
        x == u16_at(d@, at as int),
{
    d[at] as u16 + 256 * (d[at + 1] as u16)
}

pub(crate) fn get_i16(d: &[u8], at: usize) -> (x: i16)
    requires
        at + 1 < d@.len(),
    ensures
        x == i16_at(d@, at as int),
{
    let u: u16 = get_u16(d, at);
    if u >= 32768 {
        (u as i32 - 65536) as i16
    } else {
        u as i16
    }
}

pub(crate) fn get_u32(d: &[u8], at: usize) -> (x: u32)
    requires
        at + 3 < d@.len(),
    ensures
        x == u32_at(d@, at as int),
{
    assert(at + 3 < d.len());
    get_u16(d, at) as u32 + 65536 * (get_u16(d, at + 2) as u32)
}

pub(crate) fn get_u64(d: &[u8], at: usize) -> (x: u64)
    requires
        at + 7 < d@.len(),
    ensures
        x == u64_at(d@, at as int),
{
    assert(at + 7 < d.len());
    get_u32(d, at) as u64 + 0x1_0000_0000 * (get_u32(d, at + 4) as u64)
}

/// Reads the name of the record at `pos`, and where the record ends.
pub(crate) fn get_name(d: &[u8], pos: usize, head: usize) -> (r: Option<(String, usize)>)
    requires
        pos <= d@.len(),
        head <= 4,
    ensures
        match r {
            Some((name, end)) => {
                &&& record_end(d@, pos as int, head as int) == Some(end as int)
                &&& end <= d@.len()
                &&& pos + head + 2 <= end
                &&& name@ == record_between(d@, pos as int, head as int, end as int).name
            },
            None => record_end(d@, pos as int, head as int) is None,
        },
{
    let left: usize = d.len() - pos;
    if left < head + 2 {
        return None;
    }
    let len: usize = get_u16(d, pos + head) as usize;
    let start: usize = pos + head + 2;
    if d.len() - start < len {
        return None;
    }
    let end: usize = start + len;
    let name = text_from_bytes(slice_subrange(d, start, end));
    Some((name, end))
}

/// Integers come back from their bytes.
pub proof fn law_integers_round_trip(d: Seq<u8>, at: int)
    ensures
        forall|x: u16| #[trigger]
            le16(x).len() == 2 && (0 <= at && at + 2 <= d.len() && d.subrange(at, at + 2) == le16(x)
                ==> u16_at(d, at) == x),
        forall|x: u32| #[trigger]
            le32(x).len() == 4 && (0 <= at && at + 4 <= d.len() && d.subrange(at, at + 4) == le32(x)
                ==> u32_at(d, at) == x),
        forall|x: u64| #[trigger]
            le64(x).len() == 8 && (0 <= at && at + 8 <= d.len() && d.subrange(at, at + 8) == le64(x)
                ==> u64_at(d, at) == x),
        forall|x: i16| #[trigger] signed(twos_complement(x)) == x,
{
    assert forall|x: u16| #[trigger]
        le16(x).len() == 2 && (0 <= at && at + 2 <= d.len() && d.subrange(at, at + 2) == le16(x)
            ==> u16_at(d, at) == x) by {
        if 0 <= at && at + 2 <= d.len() && d.subrange(at, at + 2) == le16(x) {
            assert(d[at] == d.subrange(at, at + 2)[0]);
            assert(d[at + 1] == d.subrange(at, at + 2)[1]);
        }
    }
    assert forall|x: u32| #[trigger]
        le32(x).len() == 4 && (0 <= at && at + 4 <= d.len() && d.subrange(at, at + 4) == le32(x)
            ==> u32_at(d, at) == x) by {
        if 0 <= at && at + 4 <= d.len() && d.subrange(at, at + 4) == le32(x) {
            let t = d.subrange(at, at + 4);
            assert(d[at] == t[0] && d[at + 1] == t[1] && d[at + 2] == t[2] && d[at + 3] == t[3]);
        }
    }
    assert forall|x: u64| #[trigger]
        le64(x).len() == 8 && (0 <= at && at + 8 <= d.len() && d.subrange(at, at + 8) == le64(x)
            ==> u64_at(d, at) == x) by {
        if 0 <= at && at + 8 <= d.len() && d.subrange(at, at + 8) == le64(x) {
            let t = d.subrange(at, at + 8);
            assert(d[at] == t[0] && d[at + 1] == t[1] && d[at + 2] == t[2] && d[at + 3] == t[3]);
            assert(d[at + 4] == t[4] && d[at + 5] == t[5] && d[at + 6] == t[6] && d[at + 7]
                == t[7]);
        }
    }
}

/// A record comes back from its bytes, whatever stands around them, if its
/// name takes less than 65536 bytes.
pub proof fn law_record_round_trip(before: Seq<u8>, r: Record, after: Seq<u8>)
    requires
        encode_utf8(r.name).len() < 65536,
    ensures
        ({
            let d = before + record_bytes(r) + after;
            let pos = before.len() as int;
            let head = r.head.len() as int;
            let end = pos + record_bytes(r).len();
            &&& record_end(d, pos, head) == Some(end)
            &&& record_between(d, pos, head, end) == r
        }),
{
    let d = before + record_bytes(r) + after;
    let pos = before.len() as int;
    let head = r.head.len() as int;
    let end = pos + record_bytes(r).len();
    let text = encode_utf8(r.name);
    assert(d.subrange(pos + head, pos + head + 2) =~= le16(name_len(r.name)));
    law_integers_round_trip(d, pos + head);
    assert(u16_at(d, pos + head) == text.len()) by {
        assert(le16(name_len(r.name)).len() == 2);
    }
    assert(d.subrange(pos, pos + head) =~= r.head);
    assert(d.subrange(pos + head + 2, end) =~= text);
    vstd::utf8::encode_utf8_valid_utf8(r.name);
    vstd::utf8::encode_utf8_decode_utf8(r.name);
}

proof fn lemma_records_front(rs: Seq<Record>)
    requires
        rs.len() > 0,
    ensures
        records_bytes(rs) == record_bytes(rs[0]) + records_bytes(rs.drop_first()),
    decreases rs.len(),
{
    if rs.len() == 1 {
        assert(rs.drop_last() =~= Seq::<Record>::empty());
        assert(rs.drop_first() =~= Seq::<Record>::empty());
        assert(records_bytes(rs) =~= record_bytes(rs[0]) + records_bytes(rs.drop_first()));
    } else {
        lemma_records_front(rs.drop_last());
        assert(rs.drop_last().drop_first() =~= rs.drop_first().drop_last());
        assert(records_bytes(rs) =~= record_bytes(rs[0]) + records_bytes(rs.drop_first()));
    }
}

/// A list of records with heads of `head` bytes comes back from its bytes,
/// whatever stands around them, if each name takes less than 65536 bytes.
pub proof fn law_records_round_trip(before: Seq<u8>, rs: Seq<Record>, head: int, after: Seq<u8>)
    requires
        forall|i: int| 0 <= i < rs.len() ==> (#[trigger] rs[i]).head.len() == head,
        forall|i: int| 0 <= i < rs.len() ==> encode_utf8((#[trigger] rs[i]).name).len() < 65536,
    ensures
        parse_records(
            before + records_bytes(rs) + after,
            before.len() as int,
            head,
            rs.len(),
        ) == Some(rs),
    decreases rs.len(),
{
    let d = before + records_bytes(rs) + after;
    if rs.len() == 0 {
        assert(rs =~= Seq::<Record>::empty());
    } else {
        let first = rs[0];
        let rest = rs.drop_first();
        lemma_records_front(rs);
        law_record_round_trip(before, first, records_bytes(rest) + after);
        assert(d =~= before + record_bytes(first) + (records_bytes(rest) + after));
        let next = before + record_bytes(first);
        assert(d =~= next + records_bytes(rest) + after);
        assert forall|i: int| 0 <= i < rest.len() implies (#[trigger] rest[i]).head.len() == head
            && encode_utf8(rest[i].name).len() < 65536 by {
            assert(rest[i] == rs[i + 1]);
        }
        law_records_round_trip(next, rest, head, after);
        assert(seq![first] + rest =~= rs);
    }
}

/// Records that are complete stay so, and the same, when bytes follow.
pub proof fn law_records_ignore_what_follows(
    d: Seq<u8>,
    pos: int,
    head: int,
    count: nat,
    after: Seq<u8>,
)
    requires
        0 <= pos,
        0 <= head,
        parse_records(d, pos, head, count) is Some,
    ensures
        parse_records(d + after, pos, head, count) == parse_records(d, pos, head, count),
    decreases count,
{
    if count > 0 {
        let end = record_end(d, pos, head)->0;
        assert(u16_at(d + after, pos + head) == u16_at(d, pos + head));
        assert(record_end(d + after, pos, head) == Some(end));
        assert((d + after).subrange(pos, pos + head) =~= d.subrange(pos, pos + head));
        assert((d + after).subrange(pos + head + 2, end) =~= d.subrange(pos + head + 2, end));
        law_records_ignore_what_follows(d, end, head, (count - 1) as nat, after);
    }
}

/// A list of records that is cut anywhere is refused.
pub proof fn law_cut_records_are_refused(before: Seq<u8>, rs: Seq<Record>, head: int, k: int)
    requires
        forall|i: int| 0 <= i < rs.len() ==> (#[trigger] rs[i]).head.len() == head,
        forall|i: int| 0 <= i < rs.len() ==> encode_utf8((#[trigger] rs[i]).name).len() < 65536,
        before.len() <= k < before.len() + records_bytes(rs).len(),
    ensures
        parse_records(
            (before + records_bytes(rs)).take(k),
            before.len() as int,
            head,
            rs.len(),
        ) is None,
    decreases rs.len(),
{
    let d = before + records_bytes(rs);
    if rs.len() > 0 {
        let first = rs[0];
        let rest = rs.drop_first();
        let pos = before.len() as int;
        lemma_records_front(rs);
        law_record_round_trip(before, first, records_bytes(rest));
        assert(d =~= before + record_bytes(first) + records_bytes(rest));
        let next = before + record_bytes(first);
        assert(d =~= next + records_bytes(rest));
        let cut = d.take(k);
        if pos + head + 2 <= k {
            assert(u16_at(cut, pos + head) == u16_at(d, pos + head));
        }
        if next.len() <= k {
            assert forall|i: int| 0 <= i < rest.len() implies (#[trigger] rest[i]).head.len()
                == head && encode_utf8(rest[i].name).len() < 65536 by {
                assert(rest[i] == rs[i + 1]);
            }
            law_cut_records_are_refused(next, rest, head, k);
        }
    }
}

} // verus!
