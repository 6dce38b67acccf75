//! The on-disk frame format: `offset_be64 || length_be32 || payload`.
use vstd::prelude::*;

use crate::coding::{
    be_bytes_u32, be_bytes_u64, be_value_u32, be_value_u64, decode_u32, decode_u64, encode_u32,
    encode_u64, lemma_u32_round_trip, lemma_u64_round_trip,
};

verus! {

/// Bytes taken by a frame header: an 8-byte offset and a 4-byte length.
pub const FRAME_HEADER_LEN: usize = 12;

/// A decoded frame.
pub struct MessageAndOffset {
    pub offset: u64,
    pub message: Vec<u8>,
}

/// The bytes of the frame that stores `payload` under `offset`.
pub open spec fn frame_bytes(offset: u64, payload: Seq<u8>) -> Seq<u8> {
    be_bytes_u64(offset) + be_bytes_u32(payload.len() as u32) + payload
}

/// The offset field of a header that starts at `pos`.
pub open spec fn offset_at(b: Seq<u8>, pos: int) -> u64 {
    be_value_u64(b.subrange(pos, pos + 8))
}

/// The length field of a header that starts at `pos`.
pub open spec fn length_at(b: Seq<u8>, pos: int) -> int {
    be_value_u32(b.subrange(pos + 8, pos + 12)) as int
}

/// Where the frame that starts at `pos` ends.
pub open spec fn frame_end_at(b: Seq<u8>, pos: int) -> int {
    pos + 12 + length_at(b, pos)
}

/// A whole frame, header and payload, starts at `pos`.
pub open spec fn complete_at(b: Seq<u8>, pos: int) -> bool {
    &&& 0 <= pos
    &&& pos + 12 <= b.len()
    &&& frame_end_at(b, pos) <= b.len()
}

/// The payload of the frame that starts at `pos`.
pub open spec fn payload_at(b: Seq<u8>, pos: int) -> Seq<u8> {
    b.subrange(pos + 12, frame_end_at(b, pos))
}

/// The complete frames found by walking from `pos`, as (offset, payload) pairs.
pub open spec fn frames_from(b: Seq<u8>, pos: int) -> Seq<(u64, Seq<u8>)>
    decreases b.len() - pos,
{
    if complete_at(b, pos) {
        seq![(offset_at(b, pos), payload_at(b, pos))] + frames_from(b, frame_end_at(b, pos))
    } else {
        Seq::empty()
    }
}

/// The position just after the last complete frame reached by walking from `pos`.
pub open spec fn valid_end_from(b: Seq<u8>, pos: int) -> int
    decreases b.len() - pos,
{
    if complete_at(b, pos) {
        valid_end_from(b, frame_end_at(b, pos))
    } else {
        pos
    }
}

/// The offset of the last complete frame reached by walking from `pos`, or
/// `found` where the walk meets no frame.
pub open spec fn last_offset_from(b: Seq<u8>, pos: int, found: Option<u64>) -> Option<u64>
    decreases b.len() - pos,
{
    if complete_at(b, pos) {
        last_offset_from(b, frame_end_at(b, pos), Some(offset_at(b, pos)))
    } else {
        found
    }
}

/// The bytes of a run of frames written one after another.
pub open spec fn log_bytes(msgs: Seq<(u64, Seq<u8>)>) -> Seq<u8>
    decreases msgs.len(),
{
    if msgs.len() == 0 {
        Seq::empty()
    } else {
        frame_bytes(msgs[0].0, msgs[0].1) + log_bytes(msgs.drop_first())
    }
}

/// What one read at a position finds.
pub enum FrameRead {
    /// A whole frame.
    Frame(MessageAndOffset),
    /// The position is the end of the bytes.
    Eof,
    /// The bytes end inside a frame.
    Partial,
}

/// Encodes one frame.
pub fn encode_frame(offset: u64, payload: &[u8]) -> (r: Vec<u8>)
    requires
        payload@.len() <= u32::MAX,
    ensures
        r@ == frame_bytes(offset, payload@),
{
    let ob = encode_u64(offset);
    let lb = encode_u32(payload.len() as u32);
    let mut r: Vec<u8> = Vec::new();
    let mut i: usize = 0;
    while i < 8
        invariant
            i <= 8,
            ob@ == be_bytes_u64(offset),
            r@ == ob@.subrange(0, i as int),
        decreases 8 - i,
    {
        r.push(ob[i]);
        i = i + 1;
        assert(r@ =~= ob@.subrange(0, i as int));
    }
    let mut i: usize = 0;
    while i < 4
        invariant
            i <= 4,
            ob@.len() == 8,
            r@ == ob@ + lb@.subrange(0, i as int),
        decreases 4 - i,
    {
        r.push(lb[i]);
        i = i + 1;
        assert(r@ =~= ob@ + lb@.subrange(0, i as int));
    }
    let mut i: usize = 0;
    while i < payload.len()
        invariant
            i <= payload@.len(),
            r@ == ob@ + lb@ + payload@.subrange(0, i as int),
        decreases payload@.len() - i,
    {
        r.push(payload[i]);
        i = i + 1;
        assert(r@ =~= ob@ + lb@ + payload@.subrange(0, i as int));
    }
    assert(lb@ == be_bytes_u32(payload@.len() as u32));
    assert(r@ =~= frame_bytes(offset, payload@));
    r
}

/// Copies `b[from..to]`.
fn copy_range(b: &[u8], from: usize, to: usize) -> (r: Vec<u8>)
    requires
        from <= to <= b@.len(),
    ensures
        r@ == b@.subrange(from as int, to as int),
{
    let mut r: Vec<u8> = Vec::new();
    let mut i: usize = from;
    while i < to
        invariant
            from <= i <= to,
            to <= b@.len(),
            r@ == b@.subrange(from as int, i as int),
        decreases to - i,
    {
        r.push(b[i]);
        i = i + 1;
        assert(r@ =~= b@.subrange(from as int, i as int));
    }
    r
}

/// The offset field of the header at `pos`.
pub fn header_offset(b: &[u8], pos: usize) -> (r: u64)
    requires
        pos + 8 <= b@.len(),
    ensures
        r == offset_at(b@, pos as int),
{
    let a = [b[pos], b[pos + 1], b[pos + 2], b[pos + 3], b[pos + 4], b[pos + 5], b[pos + 6], b[pos + 7]];
    assert(a@ =~= b@.subrange(pos as int, pos + 8));
    decode_u64(a)
}

/// The length field of the header at `pos`.
fn header_length(b: &[u8], pos: usize) -> (r: u32)
    requires
        pos + 12 <= b@.len(),
    ensures
        r as int == length_at(b@, pos as int),
{
    let n = b.len();
    assert(pos + 12 <= n);
    let a = [b[pos + 8], b[pos + 9], b[pos + 10], b[pos + 11]];
    assert(a@ =~= b@.subrange(pos + 8, pos + 12));
    decode_u32(a)
}

/// Whether a whole frame starts at `pos`; where it does, where it ends.
fn frame_end(b: &[u8], pos: usize) -> (r: Option<usize>)
    requires
        pos <= b@.len(),
    ensures
        r is Some <==> complete_at(b@, pos as int),
        r matches Some(e) ==> e == frame_end_at(b@, pos as int),
{
    if b.len() - pos < FRAME_HEADER_LEN {
        return None;
    }
    let len = header_length(b, pos) as usize;
    if len > b.len() - pos - FRAME_HEADER_LEN {
        None
    } else {
        Some(pos + FRAME_HEADER_LEN + len)
    }
}

/// Reads the frame that starts at `pos`.
pub fn read_frame(b: &[u8], pos: usize) -> (r: FrameRead)
    requires
        pos <= b@.len(),
    ensures
        r is Eof <==> pos == b@.len(),
        r is Partial <==> pos < b@.len() && !complete_at(b@, pos as int),
        r is Frame <==> complete_at(b@, pos as int),
        r matches FrameRead::Frame(m) ==> m.offset == offset_at(b@, pos as int) && m.message@
            == payload_at(b@, pos as int),
{
    if pos == b.len() {
        return FrameRead::Eof;
    }
    match frame_end(b, pos) {
        None => FrameRead::Partial,
        Some(end) => {
            let offset = header_offset(b, pos);
            let message = copy_range(b, pos + FRAME_HEADER_LEN, end);
            FrameRead::Frame(MessageAndOffset { offset, message })
        },
    }
}

/// What a walk over the frames of a segment found.
pub struct SegmentScan {
    /// The offset of the last complete frame, if there is one.
    pub last_offset: Option<u64>,
    /// The position just after the last complete frame.
    pub valid_len: usize,
}

/// Walks the frames of a segment's bytes from the start.
pub fn scan_segment(b: &[u8]) -> (r: SegmentScan)
    ensures
        r.valid_len == valid_end_from(b@, 0),
        r.last_offset == last_offset_from(b@, 0, None),
        r.valid_len <= b@.len(),
{
    let mut pos: usize = 0;
    let mut last: Option<u64> = None;
    loop
        invariant
            pos <= b@.len(),
            valid_end_from(b@, 0) == valid_end_from(b@, pos as int),
            last_offset_from(b@, 0, None) == last_offset_from(b@, pos as int, last),
        decreases b@.len() - pos,
    {
        match frame_end(b, pos) {
            None => {
                return SegmentScan { last_offset: last, valid_len: pos };
            },
            Some(end) => {
                last = Some(header_offset(b, pos));
                pos = end;
            },
        }
    }
}

/// A frame that is followed by other bytes is read back as written.
pub proof fn lemma_frame_read_back(offset: u64, payload: Seq<u8>, rest: Seq<u8>)
    requires
        payload.len() <= u32::MAX,
    ensures
        ({
            let b = frame_bytes(offset, payload) + rest;
            &&& complete_at(b, 0)
            &&& offset_at(b, 0) == offset
            &&& payload_at(b, 0) == payload
            &&& frame_end_at(b, 0) == 12 + payload.len()
        }),
{
    let b = frame_bytes(offset, payload) + rest;
    lemma_u64_round_trip(offset);
    lemma_u32_round_trip(payload.len() as u32);
    assert(b.subrange(0, 8) =~= be_bytes_u64(offset));
    assert(b.subrange(8, 12) =~= be_bytes_u32(payload.len() as u32));
    assert(payload_at(b, 0) =~= payload);
}

/// Walking from `prefix.len() + pos` in `prefix + b` finds what walking from
/// `pos` in `b` finds.
pub proof fn lemma_frames_shift(prefix: Seq<u8>, b: Seq<u8>, pos: int)
    requires
        0 <= pos,
    ensures
        frames_from(prefix + b, prefix.len() + pos) == frames_from(b, pos),
    decreases b.len() - pos,
{
    let c = prefix + b;
    let q = prefix.len() + pos;
    if pos + 12 <= b.len() {
        assert(c.subrange(q, q + 8) =~= b.subrange(pos, pos + 8));
        assert(c.subrange(q + 8, q + 12) =~= b.subrange(pos + 8, pos + 12));
        if complete_at(b, pos) {
            assert(payload_at(c, q) =~= payload_at(b, pos));
            lemma_frames_shift(prefix, b, frame_end_at(b, pos));
        }
    }
}

/// Walking the bytes of a run of frames gives back that run, in order.
pub proof fn lemma_log_round_trip(msgs: Seq<(u64, Seq<u8>)>)
    requires
        forall|i: int| 0 <= i < msgs.len() ==> (#[trigger] msgs[i]).1.len() <= u32::MAX,
    ensures
        frames_from(log_bytes(msgs), 0) == msgs,
    decreases msgs.len(),
{
    if msgs.len() > 0 {
        let rest = msgs.drop_first();
        let head = frame_bytes(msgs[0].0, msgs[0].1);
        let tail = log_bytes(rest);
        let b = log_bytes(msgs);
        assert forall|i: int| 0 <= i < rest.len() implies (#[trigger] rest[i]).1.len()
            <= u32::MAX by {
            assert(rest[i] == msgs[i + 1]);
        }
        assert(msgs[0].1.len() <= u32::MAX);
        lemma_log_round_trip(rest);
        assert(b == head + tail);
        lemma_frame_read_back(msgs[0].0, msgs[0].1, tail);
        lemma_frames_shift(head, tail, 0);
        let end = frame_end_at(b, 0);
        assert(end == head.len());
        assert(frames_from(b, 0) == seq![(offset_at(b, 0), payload_at(b, 0))] + frames_from(b, end));
        assert(frames_from(b, 0) =~= msgs);
    } else {
        assert(frames_from(log_bytes(msgs), 0) =~= msgs);
    }
}

proof fn lemma_valid_end_bounds(b: Seq<u8>, pos: int)
    requires
        0 <= pos <= b.len(),
    ensures
        pos <= valid_end_from(b, pos) <= b.len(),
    decreases b.len() - pos,
{
    if complete_at(b, pos) {
        lemma_valid_end_bounds(b, frame_end_at(b, pos));
    }
}

proof fn lemma_cut_walk(b: Seq<u8>, pos: int, cut: int)
    requires
        0 <= pos <= b.len(),
        valid_end_from(b, pos) == cut,
    ensures
        frames_from(b.subrange(0, cut), pos) == frames_from(b, pos),
        valid_end_from(b.subrange(0, cut), pos) == cut,
        last_offset_from(b.subrange(0, cut), pos, None) == last_offset_from(b, pos, None),
    decreases b.len() - pos,
{
    let t = b.subrange(0, cut);
    lemma_valid_end_bounds(b, pos);
    if complete_at(b, pos) {
        let e = frame_end_at(b, pos);
        lemma_valid_end_bounds(b, e);
        assert(t.subrange(pos, pos + 8) =~= b.subrange(pos, pos + 8));
        assert(t.subrange(pos + 8, pos + 12) =~= b.subrange(pos + 8, pos + 12));
        assert(payload_at(t, pos) =~= payload_at(b, pos));
        lemma_cut_walk(b, e, cut);
        lemma_last_offset_found(t, e, offset_at(b, pos));
        lemma_last_offset_found(b, e, offset_at(b, pos));
    }
}

proof fn lemma_last_offset_found(b: Seq<u8>, pos: int, o: u64)
    ensures
        last_offset_from(b, pos, Some(o)) == match last_offset_from(b, pos, None) {
            Some(x) => Some(x),
            None => Some(o),
        },
    decreases b.len() - pos,
{
    if complete_at(b, pos) {
        lemma_last_offset_found(b, frame_end_at(b, pos), offset_at(b, pos));
    }
}

/// Cutting a segment's bytes at the end of its last complete frame keeps
/// every complete frame and the last offset, and leaves no partial frame.
pub proof fn lemma_truncate_to_valid_end(b: Seq<u8>)
    ensures
        ({
            let t = b.subrange(0, valid_end_from(b, 0));
            &&& frames_from(t, 0) == frames_from(b, 0)
            &&& valid_end_from(t, 0) == t.len()
            &&& last_offset_from(t, 0, None) == last_offset_from(b, 0, None)
        }),
{
    lemma_valid_end_bounds(b, 0);
    lemma_cut_walk(b, 0, valid_end_from(b, 0));
}

} // verus!
