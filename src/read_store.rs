//! The read cursor: positioning by `Whence`, reading frames in order, and
//! crossing from one segment to the next.
use vstd::prelude::*;

use crate::frame::{
    complete_at, frame_bytes, frame_end_at, last_offset_from, lemma_frame_read_back, log_bytes,
    offset_at, payload_at, read_frame, scan_segment, valid_end_from, FrameRead, MessageAndOffset,
    FRAME_HEADER_LEN,
};
use crate::roster::Roster;

verus! {

/// Where a cursor is placed.
#[derive(Clone, Copy, Debug, PartialEq, Eq, Structural)]
pub enum Whence {
    /// The first frame of the lowest segment.
    Oldest,
    /// The end of the active segment.
    Latest,
    /// The first frame whose offset is at least this.
    Position(u64),
}

/// Walking from `pos`, the position of the first complete frame whose offset
/// is at least `target`, or where the complete frames end.
pub open spec fn skip_below(b: Seq<u8>, pos: int, target: u64) -> int
    decreases b.len() - pos,
{
    if complete_at(b, pos) && offset_at(b, pos) < target {
        skip_below(b, frame_end_at(b, pos), target)
    } else {
        pos
    }
}

/// The lowest offset the cursor may return next, after returning `offset`.
pub open spec fn after(offset: u64) -> u64 {
    if offset == u64::MAX {
        u64::MAX
    } else {
        (offset + 1) as u64
    }
}

/// A returned message is at or above the target it was read with.
pub open spec fn at_or_above_target(r: ReadStep, target: u64) -> bool {
    r matches ReadStep::Message(m) ==> m.offset >= target
}

/// The outcome of one read step.
pub enum ReadStep {
    /// The next frame.
    Message(MessageAndOffset),
    /// The current segment ended and the cursor moved to the next one:
    /// read again, from the new current segment.
    NextSegment,
    /// Nothing more for now.
    End,
}

/// A cursor over a snapshot of the roster. The embedder hands each read the
/// bytes of the current segment.
pub struct ReadStore {
    pub roster: Roster,
    /// The position of the current segment in the roster.
    pub current: usize,
    /// The byte position within the current segment.
    pub pos: usize,
    /// Frames with lower offsets are passed over.
    pub target: u64,
}

impl ReadStore {
    pub open spec fn wf(&self) -> bool {
        &&& self.roster.wf()
        &&& self.roster@.len() == 0 ==> self.current == 0
        &&& self.roster@.len() > 0 ==> self.current < self.roster@.len()
    }

    /// The cursor of `s` is placed as `whence` says; `active` holds the bytes
    /// of the active segment.
    pub open spec fn placed(s: ReadStore, whence: Whence, active: Seq<u8>) -> bool {
        let n = s.roster@.len();
        match whence {
            Whence::Oldest => s.current == 0 && s.pos == 0 && s.target == 0,
            Whence::Latest => n > 0 ==> {
                &&& s.current == n - 1
                &&& s.pos == valid_end_from(active, 0)
                &&& s.target == match last_offset_from(active, 0, None) {
                    Some(o) => after(o),
                    None => 0,
                }
            },
            Whence::Position(p) => {
                &&& s.pos == 0
                &&& s.target == p
                &&& (n > 0 && s.roster@[0] <= p) ==> {
                    &&& s.roster@[s.current as int] <= p
                    &&& s.current + 1 < n ==> p < s.roster@[s.current + 1]
                }
                &&& (n == 0 || p < s.roster@[0]) ==> s.current == 0
            },
        }
    }

    /// Opens a cursor over `roster`, placed as `whence` says. `active` holds
    /// the bytes of the active segment; only `Whence::Latest` reads them.
    pub fn new(roster: Roster, whence: Whence, active: &[u8]) -> (r: ReadStore)
        requires
            roster.wf(),
        ensures
            r.wf(),
            r.roster@ == roster@,
            Self::placed(r, whence, active@),
    {
        let mut r = ReadStore { roster, current: 0, pos: 0, target: 0 };
        r.seek(whence, active);
        r
    }

    /// Places the cursor as `whence` says. `active` holds the bytes of the
    /// active segment; only `Whence::Latest` reads them.
    pub fn seek(&mut self, whence: Whence, active: &[u8])
        requires
            old(self).wf(),
        ensures
            final(self).wf(),
            final(self).roster@ == old(self).roster@,
            Self::placed(*final(self), whence, active@),
    {
        match whence {
            Whence::Oldest => {
                self.current = 0;
                self.pos = 0;
                self.target = 0;
            },
            Whence::Latest => {
                let n = self.roster.len();
                if n > 0 {
                    let scan = scan_segment(active);
                    self.current = n - 1;
                    self.pos = scan.valid_len;
                    self.target = match scan.last_offset {
                        Some(o) => if o == u64::MAX {
                            o
                        } else {
                            o + 1
                        },
                        None => 0,
                    };
                }
            },
            Whence::Position(p) => {
                self.current = match self.roster.floor(p) {
                    Some(i) => i,
                    None => 0,
                };
                self.pos = 0;
                self.target = p;
            },
        }
    }

    /// Replaces the roster snapshot with a newer one. The cursor stays where
    /// it is when its segment is still listed, and moves to the start of the
    /// lowest segment when it is not; the target is kept.
    pub fn refresh(&mut self, roster: Roster)
        requires
            old(self).wf(),
            roster.wf(),
        ensures
            final(self).wf(),
            final(self).roster@ == roster@,
            final(self).target == old(self).target,
            ({
                let s = *old(self);
                let kept = s.roster@.len() > 0 && roster@.contains(s.roster@[s.current as int]);
                &&& kept ==> roster@[final(self).current as int] == s.roster@[s.current as int]
                    && final(self).pos == s.pos
                &&& !kept ==> final(self).current == 0 && final(self).pos == 0
            }),
    {
        let mut found: Option<usize> = None;
        if self.roster.len() > 0 {
            let cur = self.roster.start(self.current);
            let mut i: usize = 0;
            while i < roster.len() && roster.start(i) != cur
                invariant
                    i <= roster@.len(),
                    forall|j: int| 0 <= j < i ==> roster@[j] != cur,
                decreases roster@.len() - i,
            {
                i = i + 1;
            }
            if i < roster.len() {
                found = Some(i);
            } else {
                assert(!roster@.contains(cur));
            }
        }
        self.roster = roster;
        match found {
            Some(i) => {
                self.current = i;
            },
            None => {
                self.current = 0;
                self.pos = 0;
            },
        }
    }

    /// The start offset of the segment whose bytes the next read takes.
    pub fn current_segment(&self) -> (r: Option<u64>)
        requires
            self.wf(),
        ensures
            self.roster@.len() == 0 ==> r is None,
            self.roster@.len() > 0 ==> r == Some(self.roster@[self.current as int]),
    {
        if self.roster.len() == 0 {
            None
        } else {
            Some(self.roster.start(self.current))
        }
    }

    /// Takes one step over `data`, the bytes of the current segment: returns
    /// the first complete frame at or after the cursor whose offset is at
    /// least the target; at the end of a sealed segment moves on to the next
    /// one; at the end of the active segment, or before a partial frame,
    /// returns `End`.
    pub fn read(&mut self, data: &[u8]) -> (r: ReadStep)
        requires
            old(self).wf(),
        ensures
            final(self).wf(),
            final(self).roster@ == old(self).roster@,
            ({
                let s = *old(self);
                let b = data@;
                let p = skip_below(b, s.pos as int, s.target);
                let n = s.roster@.len();
                if n == 0 || s.pos > b.len() {
                    r is End && *final(self) == s
                } else if complete_at(b, p) {
                    &&& r matches ReadStep::Message(m) && m.offset == offset_at(b, p)
                        && m.message@ == payload_at(b, p)
                    &&& at_or_above_target(r, s.target)
                    &&& final(self).current == s.current
                    &&& final(self).pos == frame_end_at(b, p)
                    &&& final(self).target == after(offset_at(b, p))
                } else if p == b.len() && s.current + 1 < n {
                    &&& r is NextSegment
                    &&& final(self).current == s.current + 1
                    &&& final(self).pos == 0
                    &&& final(self).target == s.target
                } else if p == b.len() {
                    &&& r is End
                    &&& final(self).current == s.current
                    &&& final(self).pos == p
                    &&& final(self).target == s.target
                } else {
                    r is End && *final(self) == s
                }
            }),
    {
        if self.roster.len() == 0 || self.pos > data.len() {
            return ReadStep::End;
        }
        let dl = data.len();
        let mut p: usize = self.pos;
        loop
            invariant
                *self == *old(self),
                self.wf(),
                self.roster@.len() > 0,
                dl == data@.len(),
                self.pos <= p <= data@.len(),
                skip_below(data@, self.pos as int, self.target) == skip_below(
                    data@,
                    p as int,
                    self.target,
                ),
            decreases data@.len() - p,
        {
            match read_frame(data, p) {
                FrameRead::Frame(m) => {
                    assert(m.message@.len() == frame_end_at(data@, p as int) - p - 12);
                    let end = p + FRAME_HEADER_LEN + m.message.len();
                    if m.offset >= self.target {
                        self.pos = end;
                        self.target = if m.offset == u64::MAX {
                            m.offset
                        } else {
                            m.offset + 1
                        };
                        return ReadStep::Message(m);
                    }
                    p = end;
                },
                FrameRead::Eof => {
                    if self.current < self.roster.len() - 1 {
                        self.current = self.current + 1;
                        self.pos = 0;
                        return ReadStep::NextSegment;
                    }
                    self.pos = p;
                    return ReadStep::End;
                },
                FrameRead::Partial => {
                    return ReadStep::End;
                },
            }
        }
    }
}

/// A cursor at the boundary of the `k`-th frame of a segment written as a run
/// of frames with increasing offsets, whose target is at most that frame's
/// offset, reads that frame next and moves to the boundary of the one after;
/// at the end of the run it finds no frame.
pub proof fn lemma_read_in_order(msgs: Seq<(u64, Seq<u8>)>, k: int, target: u64)
    requires
        forall|i: int| 0 <= i < msgs.len() ==> (#[trigger] msgs[i]).1.len() <= u32::MAX,
        0 <= k <= msgs.len(),
        k < msgs.len() ==> target <= msgs[k].0,
    ensures
        ({
            let b = log_bytes(msgs);
            let p = log_bytes(msgs.take(k)).len() as int;
            let q = skip_below(b, p, target);
            if k < msgs.len() {
                &&& q == p
                &&& complete_at(b, p)
                &&& offset_at(b, p) == msgs[k].0
                &&& payload_at(b, p) == msgs[k].1
                &&& frame_end_at(b, p) == log_bytes(msgs.take(k + 1)).len()
            } else {
                q == b.len() && !complete_at(b, q)
            }
        }),
{
    let b = log_bytes(msgs);
    let pre = msgs.take(k);
    let rest = msgs.skip(k);
    assert(msgs =~= pre + rest);
    lemma_log_bytes_concat(pre, rest);
    let p = log_bytes(pre).len() as int;
    if k < msgs.len() {
        assert(rest[0] == msgs[k]);
        lemma_frame_read_back(msgs[k].0, msgs[k].1, log_bytes(rest.drop_first()));
        assert(log_bytes(rest) == frame_bytes(rest[0].0, rest[0].1) + log_bytes(rest.drop_first()));
        let c = log_bytes(rest);
        assert(b == log_bytes(pre) + c);
        assert(b.subrange(p, p + 8) =~= c.subrange(0, 8));
        assert(b.subrange(p + 8, p + 12) =~= c.subrange(8, 12));
        assert(payload_at(b, p) =~= payload_at(c, 0));
        assert(msgs.take(k + 1) =~= pre.push(msgs[k]));
        assert(pre.push(msgs[k]) =~= pre + seq![msgs[k]]);
        lemma_log_bytes_concat(pre, seq![msgs[k]]);
        let one = seq![msgs[k]];
        assert(one.drop_first() =~= Seq::<(u64, Seq<u8>)>::empty());
        assert(log_bytes(one.drop_first()) == Seq::<u8>::empty());
        assert(one[0] == msgs[k]);
        assert(log_bytes(one) =~= frame_bytes(msgs[k].0, msgs[k].1));
    } else {
        assert(rest =~= Seq::<(u64, Seq<u8>)>::empty());
        assert(b =~= log_bytes(pre));
    }
}

/// The bytes of two runs of frames written one after the other.
pub proof fn lemma_log_bytes_concat(a: Seq<(u64, Seq<u8>)>, c: Seq<(u64, Seq<u8>)>)
    ensures
        log_bytes(a + c) == log_bytes(a) + log_bytes(c),
    decreases a.len(),
{
    if a.len() == 0 {
        assert(a + c =~= c);
        assert(log_bytes(a) + log_bytes(c) =~= log_bytes(c));
    } else {
        assert((a + c).drop_first() =~= a.drop_first() + c);
        assert((a + c)[0] == a[0]);
        lemma_log_bytes_concat(a.drop_first(), c);
        let h = frame_bytes(a[0].0, a[0].1);
        assert(h + (log_bytes(a.drop_first()) + log_bytes(c)) =~= (h + log_bytes(a.drop_first()))
            + log_bytes(c));
    }
}

} // verus!
