//! The single-writer append path: recovery on open, offset assignment, the
//! roll and sync policies, and retention.
use vstd::prelude::*;

use crate::frame::{
    encode_frame, frame_bytes, header_offset, last_offset_from, offset_at, scan_segment,
    valid_end_from, FRAME_HEADER_LEN,
};
use crate::options::{LogError, Options, SyncPolicy};
use crate::roster::Roster;

verus! {

/// The offset a store resumes from: the last complete frame's offset, or the
/// one before the active segment's start where it holds none (0 at the least).
pub open spec fn recovered_max_offset(start: u64, last: Option<u64>) -> u64 {
    match last {
        Some(o) => o,
        None => if start == 0 {
            0
        } else {
            (start - 1) as u64
        },
    }
}

/// What the embedder does for one append, in order: create the segment file
/// named for `offset` where `roll` holds, then write the `frame_len` bytes of
/// the frame that stores the payload under `offset` to the active segment.
#[derive(Clone, Copy, Debug, PartialEq, Eq, Structural)]
pub struct AppendPlan {
    pub roll: bool,
    pub offset: u64,
    pub frame_len: u64,
}

/// An append that is planned and not yet written.
pub struct PendingAppend {
    pub plan: AppendPlan,
    /// The bytes to write at the end of the active segment.
    pub frame: Vec<u8>,
}

/// The state of the writer of one log directory.
pub struct WriteStore {
    pub roster: Roster,
    /// The last assigned offset.
    pub max_offset: u64,
    pub options: Options,
    /// The byte length of the active segment.
    pub active_len: u64,
    /// The active segment holds at least one complete frame.
    pub active_has_frame: bool,
    /// Bytes appended since the last sync.
    pub unsynced_bytes: u64,
    /// When the last sync happened, in milliseconds.
    pub last_sync_ms: u64,
}

/// Checks a sealed segment against its name, given its first bytes (a
/// whole header where the segment holds one): the first frame's offset must
/// not precede the segment's start offset.
pub fn check_sealed_segment(start: u64, head: &[u8]) -> (r: Result<(), LogError>)
    ensures
        r is Err <==> (head@.len() >= FRAME_HEADER_LEN && offset_at(head@, 0) < start),
        r matches Err(e) ==> e == LogError::Corruption,
{
    if head.len() >= FRAME_HEADER_LEN && header_offset(head, 0) < start {
        Err(LogError::Corruption)
    } else {
        Ok(())
    }
}

/// The sum of `s`.
pub open spec fn total(s: Seq<u64>) -> int
    decreases s.len(),
{
    if s.len() == 0 {
        0
    } else {
        total(s.drop_last()) + s.last()
    }
}

/// The bytes left once the `k` oldest segments are gone exceed the bound.
pub open spec fn over_budget(sizes: Seq<u64>, k: int, o: Options) -> bool {
    total(sizes) - total(sizes.subrange(0, k)) > o.max_total_bytes
}

/// The minimum retention allows removing segment `k`.
pub open spec fn floor_allows(ages: Seq<u64>, k: int, o: Options) -> bool {
    match o.blocking_minimum_retention {
        Some(f) => ages[k] >= f,
        None => true,
    }
}

/// Segment `k` is older than the maximum file age.
pub open spec fn too_old(ages: Seq<u64>, k: int, o: Options) -> bool {
    match o.max_file_age {
        Some(a) => ages[k] > a,
        None => false,
    }
}

/// Segment `k` is sealed, the floor allows its removal, and size or age
/// calls for it.
pub open spec fn evictable(sizes: Seq<u64>, ages: Seq<u64>, o: Options, k: int) -> bool {
    &&& k + 1 < sizes.len()
    &&& floor_allows(ages, k, o)
    &&& (over_budget(sizes, k, o) || too_old(ages, k, o))
}

/// The number of segments that retention removes when it has removed the
/// `k` oldest: it goes on, oldest first, while the next is evictable.
pub open spec fn retention_stop(sizes: Seq<u64>, ages: Seq<u64>, o: Options, k: int) -> int
    decreases sizes.len() - k,
{
    if 0 <= k < sizes.len() && evictable(sizes, ages, o, k) {
        retention_stop(sizes, ages, o, k + 1)
    } else {
        k
    }
}

/// Once `k` segments are gone, the size bound is still exceeded and only the
/// minimum retention keeps the next sealed segment: appends must wait.
pub open spec fn retention_blocked(sizes: Seq<u64>, ages: Seq<u64>, o: Options, k: int) -> bool {
    &&& k + 1 < sizes.len()
    &&& over_budget(sizes, k, o)
    &&& !floor_allows(ages, k, o)
}

/// What retention does: delete the `evict` oldest segment files; where
/// `blocked` holds, new appends wait.
#[derive(Clone, Copy, Debug, PartialEq, Eq, Structural)]
pub struct RetentionPlan {
    pub evict: usize,
    pub blocked: bool,
}

proof fn lemma_total_prefix(s: Seq<u64>, k: int)
    requires
        0 <= k < s.len(),
    ensures
        total(s.subrange(0, k + 1)) == total(s.subrange(0, k)) + s[k],
{
    assert(s.subrange(0, k + 1).drop_last() =~= s.subrange(0, k));
}

proof fn lemma_total_bound(s: Seq<u64>)
    ensures
        0 <= total(s) <= s.len() * 0xFFFF_FFFF_FFFF_FFFF,
    decreases s.len(),
{
    if s.len() > 0 {
        lemma_total_bound(s.drop_last());
    }
}

/// Decides which segments retention removes; see `WriteStore::plan_retention`.
pub fn plan_retention(sizes: &Vec<u64>, ages: &Vec<u64>, o: Options) -> (r: RetentionPlan)
    requires
        ages@.len() == sizes@.len(),
    ensures
        r.evict == retention_stop(sizes@, ages@, o, 0),
        r.blocked == retention_blocked(sizes@, ages@, o, r.evict as int),
{
    let n = sizes.len();
    let mut sum: u128 = 0;
    let mut i: usize = 0;
    while i < n
        invariant
            i <= n == sizes@.len(),
            sum == total(sizes@.subrange(0, i as int)),
            sum <= i * 0xFFFF_FFFF_FFFF_FFFFu128,
        decreases n - i,
    {
        proof {
            lemma_total_prefix(sizes@, i as int);
        }
        assert(sum + sizes[i as int] <= (i + 1) * 0xFFFF_FFFF_FFFF_FFFFu128) by (nonlinear_arith)
            requires
                sum <= i * 0xFFFF_FFFF_FFFF_FFFFu128,
                sizes[i as int] <= 0xFFFF_FFFF_FFFF_FFFFu128,
        ;
        assert(i + 1 <= usize::MAX);
        assert((i + 1) * 0xFFFF_FFFF_FFFF_FFFFu128 <= 0xFFFF_FFFF_FFFF_FFFFu128 * 0xFFFF_FFFF_FFFF_FFFFu128) by (nonlinear_arith)
            requires
                i + 1 <= 0xFFFF_FFFF_FFFF_FFFFu128,
        ;
        sum = sum + sizes[i] as u128;
        i = i + 1;
    }
    assert(sizes@.subrange(0, n as int) =~= sizes@);
    let all = sum;
    let mut removed: u128 = 0;
    let mut k: usize = 0;
    while k < n
        invariant
            k <= n == sizes@.len() == ages@.len(),
            all == total(sizes@),
            removed == total(sizes@.subrange(0, k as int)),
            removed <= all,
            retention_stop(sizes@, ages@, o, 0) == retention_stop(sizes@, ages@, o, k as int),
        decreases n - k,
    {
        let over = all - removed > o.max_total_bytes as u128;
        let floor_ok = match o.blocking_minimum_retention {
            Some(f) => ages[k] >= f,
            None => true,
        };
        let old_enough = match o.max_file_age {
            Some(a) => ages[k] > a,
            None => false,
        };
        if !(k + 1 < n && floor_ok && (over || old_enough)) {
            assert(!evictable(sizes@, ages@, o, k as int));
            return RetentionPlan { evict: k, blocked: k + 1 < n && over && !floor_ok };
        }
        proof {
            lemma_total_prefix(sizes@, k as int);
            lemma_total_monotone(sizes@, k as int + 1);
        }
        removed = removed + sizes[k] as u128;
        k = k + 1;
    }
    RetentionPlan { evict: k, blocked: false }
}

proof fn lemma_total_monotone(s: Seq<u64>, k: int)
    requires
        0 <= k <= s.len(),
    ensures
        total(s.subrange(0, k)) <= total(s),
    decreases s.len() - k,
{
    if k < s.len() {
        lemma_total_prefix(s, k);
        lemma_total_monotone(s, k + 1);
    } else {
        assert(s.subrange(0, k) =~= s);
    }
}

impl WriteStore {
    pub open spec fn wf(&self) -> bool {
        &&& self.roster.wf()
        &&& self.roster@.len() > 0
        &&& self.roster@.last() <= self.max_offset + 1
        &&& self.active_has_frame ==> self.roster@.last() <= self.max_offset
    }

    /// The frame with `payload_len` bytes of payload must open a new segment.
    pub open spec fn spec_should_roll(&self, payload_len: int) -> bool {
        &&& self.active_len + FRAME_HEADER_LEN + payload_len > self.options.file_roll_size
        &&& self.active_has_frame
    }

    /// Offsets are exhausted, or the active segment's length would overflow.
    pub open spec fn spec_append_refused(&self, payload_len: int) -> bool {
        ||| self.max_offset == u64::MAX
        ||| (!self.spec_should_roll(payload_len) && self.active_len + FRAME_HEADER_LEN
            + payload_len > u64::MAX)
    }

    /// The plan of an append of `payload_len` bytes.
    pub open spec fn spec_plan(&self, payload_len: int) -> AppendPlan {
        AppendPlan {
            roll: self.spec_should_roll(payload_len),
            offset: (self.max_offset + 1) as u64,
            frame_len: (FRAME_HEADER_LEN + payload_len) as u64,
        }
    }

    /// A sync is due after `unsynced` unsynced bytes at time `now_ms`.
    pub open spec fn spec_sync_due(&self, unsynced: u64, now_ms: u64) -> bool {
        match self.options.sync_policy {
            SyncPolicy::Always => true,
            SyncPolicy::Never => false,
            SyncPolicy::Periodic(d) => now_ms >= self.last_sync_ms && now_ms - self.last_sync_ms
                >= d,
            SyncPolicy::PerThreadBufferBytes(n) => unsynced >= n,
            SyncPolicy::TotalBufferBytes(n) => unsynced >= n,
        }
    }

    /// Opens the store over a roster and the bytes of its active segment.
    /// On success it also returns the length to truncate the active segment
    /// to: the end of its last complete frame.
    pub fn new(roster: Roster, active: &[u8], options: Options, now_ms: u64) -> (r: Result<
        (WriteStore, usize),
        LogError,
    >)
        requires
            roster.wf(),
            roster@.len() > 0,
        ensures
            ({
                let start = roster@.last();
                let last = last_offset_from(active@, 0, None);
                &&& r is Err <==> (last matches Some(o) && o < start)
                &&& r matches Err(e) ==> e == LogError::Corruption
                &&& r matches Ok((s, cut)) ==> {
                    &&& s.wf()
                    &&& s.roster@ == roster@
                    &&& s.options == options
                    &&& cut == valid_end_from(active@, 0)
                    &&& s.max_offset == recovered_max_offset(start, last)
                    &&& s.active_len == cut
                    &&& s.active_has_frame == last is Some
                    &&& s.unsynced_bytes == 0
                    &&& s.last_sync_ms == now_ms
                }
            }),
    {
        let start = roster.start(roster.len() - 1);
        let scan = scan_segment(active);
        let max_offset = match scan.last_offset {
            Some(o) => {
                if o < start {
                    return Err(LogError::Corruption);
                }
                o
            },
            None => if start == 0 {
                0
            } else {
                start - 1
            },
        };
        let store = WriteStore {
            roster,
            max_offset,
            options,
            active_len: scan.valid_len as u64,
            active_has_frame: scan.last_offset.is_some(),
            unsynced_bytes: 0,
            last_sync_ms: now_ms,
        };
        Ok((store, scan.valid_len))
    }

    /// Decides how a payload of `payload_len` bytes is appended: whether a
    /// new segment comes first, and the offset the payload gets.
    pub fn prepare_append(&self, payload_len: usize) -> (r: Result<AppendPlan, LogError>)
        requires
            self.wf(),
            payload_len <= u32::MAX,
        ensures
            r is Err <==> self.spec_append_refused(payload_len as int),
            r matches Err(e) ==> e == LogError::Invariant,
            r matches Ok(p) ==> p == self.spec_plan(payload_len as int),
    {
        if self.max_offset == u64::MAX {
            return Err(LogError::Invariant);
        }
        let frame_len = FRAME_HEADER_LEN as u64 + payload_len as u64;
        let roll = self.active_has_frame && (self.active_len > u64::MAX - frame_len
            || self.active_len + frame_len > self.options.file_roll_size);
        if !roll && self.active_len > u64::MAX - frame_len {
            return Err(LogError::Invariant);
        }
        Ok(AppendPlan { roll, offset: self.max_offset + 1, frame_len })
    }

    /// Prepares the append of `msg`: the plan, and the bytes of its frame.
    /// Nothing changes until `commit_append` records that the frame was
    /// written.
    pub fn append(&self, msg: &[u8]) -> (r: Result<PendingAppend, LogError>)
        requires
            self.wf(),
            msg@.len() <= u32::MAX,
        ensures
            r is Err <==> self.spec_append_refused(msg@.len() as int),
            r matches Err(e) ==> e == LogError::Invariant,
            r matches Ok(a) ==> a.plan == self.spec_plan(msg@.len() as int) && a.frame@
                == frame_bytes(a.plan.offset, msg@),
    {
        match self.prepare_append(msg.len()) {
            Err(e) => Err(e),
            Ok(plan) => Ok(PendingAppend { plan, frame: encode_frame(plan.offset, msg) }),
        }
    }

    /// Records an append whose frame was written in full, and tells whether
    /// the sync policy now asks for a sync.
    pub fn commit_append(&mut self, plan: AppendPlan, payload_len: usize, now_ms: u64) -> (sync: bool)
        requires
            old(self).wf(),
            payload_len <= u32::MAX,
            !old(self).spec_append_refused(payload_len as int),
            plan == old(self).spec_plan(payload_len as int),
        ensures
            final(self).wf(),
            final(self).max_offset == plan.offset,
            plan.roll ==> final(self).roster@ == old(self).roster@.push(plan.offset),
            !plan.roll ==> final(self).roster@ == old(self).roster@,
            final(self).active_len == if plan.roll {
                plan.frame_len
            } else {
                (old(self).active_len + plan.frame_len) as u64
            },
            final(self).active_has_frame,
            final(self).options == old(self).options,
            final(self).last_sync_ms == old(self).last_sync_ms,
            final(self).unsynced_bytes == if old(self).unsynced_bytes + plan.frame_len
                > u64::MAX {
                u64::MAX
            } else {
                (old(self).unsynced_bytes + plan.frame_len) as u64
            },
            sync == old(self).spec_sync_due(final(self).unsynced_bytes, now_ms),
    {
        if plan.roll {
            self.roster.roll(plan.offset);
            self.active_len = plan.frame_len;
        } else {
            self.active_len = self.active_len + plan.frame_len;
        }
        self.max_offset = plan.offset;
        self.active_has_frame = true;
        self.unsynced_bytes = self.unsynced_bytes.saturating_add(plan.frame_len);
        match self.options.sync_policy {
            SyncPolicy::Always => true,
            SyncPolicy::Never => false,
            SyncPolicy::Periodic(d) => now_ms >= self.last_sync_ms && now_ms - self.last_sync_ms
                >= d,
            SyncPolicy::PerThreadBufferBytes(n) => self.unsynced_bytes >= n as u64,
            SyncPolicy::TotalBufferBytes(n) => self.unsynced_bytes >= n as u64,
        }
    }

    /// Records a completed sync.
    pub fn note_synced(&mut self, now_ms: u64)
        requires
            old(self).wf(),
        ensures
            final(self).wf(),
            final(self).unsynced_bytes == 0,
            final(self).last_sync_ms == now_ms,
            final(self).roster@ == old(self).roster@,
            final(self).max_offset == old(self).max_offset,
            final(self).options == old(self).options,
            final(self).active_len == old(self).active_len,
            final(self).active_has_frame == old(self).active_has_frame,
    {
        self.unsynced_bytes = 0;
        self.last_sync_ms = now_ms;
    }

    /// Whether closing the store calls for a sync.
    pub fn sync_on_close(&self) -> (r: bool)
        ensures
            r == self.options.sync_policy is Periodic,
    {
        match self.options.sync_policy {
            SyncPolicy::Periodic(_) => true,
            _ => false,
        }
    }

    /// Decides which sealed segments retention removes, given each segment's
    /// size in bytes and age in milliseconds, lowest start offset first.
    pub fn plan_retention(&self, sizes: &Vec<u64>, ages: &Vec<u64>) -> (r: RetentionPlan)
        requires
            self.wf(),
            sizes@.len() == self.roster@.len(),
            ages@.len() == self.roster@.len(),
        ensures
            r.evict == retention_stop(sizes@, ages@, self.options, 0),
            r.blocked == retention_blocked(sizes@, ages@, self.options, r.evict as int),
    {
        plan_retention(sizes, ages, self.options)
    }

    /// Forgets the `count` oldest segments, whose files were deleted.
    pub fn evict_oldest(&mut self, count: usize)
        requires
            old(self).wf(),
            count < old(self).roster@.len(),
        ensures
            final(self).wf(),
            final(self).roster@ == old(self).roster@.subrange(count as int, old(self).roster@.len() as int),
            final(self).max_offset == old(self).max_offset,
            final(self).options == old(self).options,
            final(self).active_len == old(self).active_len,
            final(self).active_has_frame == old(self).active_has_frame,
            final(self).unsynced_bytes == old(self).unsynced_bytes,
            final(self).last_sync_ms == old(self).last_sync_ms,
    {
        self.roster.remove_oldest(count);
    }
}

/// Offsets are contiguous: once an append is recorded, the next accepted one
/// gets the offset after it.
pub proof fn lemma_offsets_contiguous(s: WriteStore, t: WriteStore, n: int, m: int)
    requires
        s.wf(),
        !s.spec_append_refused(n),
        t.max_offset == s.spec_plan(n).offset,
        !t.spec_append_refused(m),
    ensures
        t.spec_plan(m).offset == s.spec_plan(n).offset + 1,
        s.spec_plan(n).offset == s.max_offset + 1,
{
}

/// A store opened over a fresh log (the single empty segment 0) hands out
/// offset 1 first.
pub proof fn lemma_fresh_log_starts_at_one(s: WriteStore, n: int)
    requires
        s.max_offset == recovered_max_offset(0, last_offset_from(Seq::empty(), 0, None)),
    ensures
        s.spec_plan(n).offset == 1,
{
}

/// A payload larger than the roll size opens a new segment when the active
/// one holds a frame, and the segment it lands in is rolled away from by the
/// next append: it stays alone in its segment.
pub proof fn lemma_oversized_payload_alone(s: WriteStore, t: WriteStore, n: int, m: int)
    requires
        s.wf(),
        s.options.file_roll_size < n <= u32::MAX,
        0 <= m,
        t.options == s.options,
        t.active_has_frame,
        t.active_len == s.spec_plan(n).frame_len,
        !s.spec_append_refused(n),
    ensures
        s.active_has_frame ==> s.spec_should_roll(n),
        t.spec_should_roll(m),
{
}

proof fn lemma_retention_walk(sizes: Seq<u64>, ages: Seq<u64>, o: Options, k: int)
    requires
        0 <= k <= sizes.len(),
    ensures
        k <= retention_stop(sizes, ages, o, k) <= sizes.len(),
        forall|i: int|
            k <= i < retention_stop(sizes, ages, o, k) ==> #[trigger] evictable(sizes, ages, o, i),
    decreases sizes.len() - k,
{
    if k < sizes.len() && evictable(sizes, ages, o, k) {
        lemma_retention_walk(sizes, ages, o, k + 1);
    }
}

/// Retention removes only sealed segments, and none that the minimum
/// retention still protects.
pub proof fn lemma_retention_respects_floor(sizes: Seq<u64>, ages: Seq<u64>, o: Options)
    requires
        ages.len() == sizes.len(),
        sizes.len() > 0,
    ensures
        retention_stop(sizes, ages, o, 0) < sizes.len(),
        forall|i: int|
            0 <= i < retention_stop(sizes, ages, o, 0) ==> #[trigger] floor_allows(ages, i, o),
{
    lemma_retention_walk(sizes, ages, o, 0);
    let k = retention_stop(sizes, ages, o, 0);
    if k == sizes.len() {
        assert(evictable(sizes, ages, o, k - 1));
    }
    assert forall|i: int| 0 <= i < k implies #[trigger] floor_allows(ages, i, o) by {
        assert(evictable(sizes, ages, o, i));
    }
}

} // verus!
