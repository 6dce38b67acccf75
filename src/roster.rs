//! The segment roster: the start offsets of the segments, in increasing order.
use vstd::prelude::*;

use crate::naming::{parse_name, parse_segment_file_name};
use crate::options::LogError;

verus! {

/// Strictly increasing.
pub open spec fn strictly_increasing(s: Seq<u64>) -> bool {
    forall|i: int, j: int| 0 <= i < j < s.len() ==> s[i] < s[j]
}

/// Some name among `names` is a segment file name for `k`.
pub open spec fn names_key(names: Seq<String>, k: u64) -> bool {
    exists|i: int| 0 <= i < names.len() && parse_name(#[trigger] names[i]@) == Some(k)
}

/// Two different names among `names` give the same start offset.
pub open spec fn names_clash(names: Seq<String>) -> bool {
    exists|i: int, j: int|
        0 <= i < j < names.len() && parse_name(#[trigger] names[i]@) is Some && parse_name(
            names[i]@,
        ) == parse_name(#[trigger] names[j]@)
}

/// The start offsets of a log directory's segments. The last is the active
/// segment; the others are sealed.
pub struct Roster {
    starts: Vec<u64>,
}

impl View for Roster {
    type V = Seq<u64>;

    closed spec fn view(&self) -> Seq<u64> {
        self.starts@
    }
}

impl Roster {
    pub open spec fn wf(&self) -> bool {
        strictly_increasing(self@)
    }

    /// A roster with no segment.
    pub fn new() -> (r: Roster)
        ensures
            r.wf(),
            r@ == Seq::<u64>::empty(),
    {
        Roster { starts: Vec::new() }
    }

    /// Builds the roster from the entries of a log directory. Names that are
    /// not segment file names are ignored; two names for one start offset are
    /// a corruption.
    pub fn discover(names: &Vec<String>) -> (r: Result<Roster, LogError>)
        ensures
            r is Err <==> names_clash(names@),
            r matches Err(e) ==> e == LogError::Corruption,
            r matches Ok(ro) ==> ro.wf() && forall|k: u64| ro@.contains(k) <==> names_key(
                names@,
                k,
            ),
    {
        let mut ro = Roster::new();
        let mut i: usize = 0;
        while i < names.len()
            invariant
                i <= names@.len(),
                ro.wf(),
                forall|k: u64|
                    ro@.contains(k) <==> names_key(names@.subrange(0, i as int), k),
                !names_clash(names@.subrange(0, i as int)),
            decreases names@.len() - i,
        {
            let pre = Ghost(names@.subrange(0, i as int));
            let next = Ghost(names@.subrange(0, i as int + 1));
            assert(next@ =~= pre@.push(names@[i as int]));
            match parse_segment_file_name(names[i].as_str()) {
                None => {
                    assert forall|k: u64| names_key(next@, k) implies names_key(pre@, k) by {
                        let j = choose|j: int|
                            0 <= j < next@.len() && parse_name(#[trigger] next@[j]@) == Some(k);
                        assert(pre@[j] == next@[j]);
                    }
                    assert forall|k: u64| names_key(pre@, k) implies names_key(next@, k) by {
                        let j = choose|j: int|
                            0 <= j < pre@.len() && parse_name(#[trigger] pre@[j]@) == Some(k);
                        assert(pre@[j] == next@[j]);
                    }
                    assert(!names_clash(next@)) by {
                        if names_clash(next@) {
                            let (a, b) = choose|a: int, b: int|
                                0 <= a < b < next@.len() && parse_name(#[trigger] next@[a]@) is Some
                                    && parse_name(next@[a]@) == parse_name(#[trigger] next@[b]@);
                            assert(pre@[a] == next@[a] && pre@[b] == next@[b]);
                        }
                    }
                },
                Some(k) => {
                    let fresh = ro.insert(k);
                    if !fresh {
                        assert(names_clash(names@)) by {
                            let j = choose|j: int|
                                0 <= j < pre@.len() && parse_name(#[trigger] pre@[j]@) == Some(k);
                            assert(names@[j] == pre@[j]);
                            assert(parse_name(names@[j]@) == parse_name(names@[i as int]@));
                        }
                        return Err(LogError::Corruption);
                    }
                    assert forall|kk: u64| names_key(next@, kk) <==> ro@.contains(kk) by {
                        if names_key(next@, kk) {
                            let j = choose|j: int|
                                0 <= j < next@.len() && parse_name(#[trigger] next@[j]@) == Some(
                                    kk,
                                );
                            if j < pre@.len() {
                                assert(pre@[j] == next@[j]);
                            }
                        }
                        if ro@.contains(kk) && kk != k {
                            let j = choose|j: int|
                                0 <= j < pre@.len() && parse_name(#[trigger] pre@[j]@) == Some(
                                    kk,
                                );
                            assert(pre@[j] == next@[j]);
                        }
                        if kk == k {
                            assert(next@[i as int] == names@[i as int]);
                        }
                    }
                    assert(!names_clash(next@)) by {
                        if names_clash(next@) {
                            let (a, b) = choose|a: int, b: int|
                                0 <= a < b < next@.len() && parse_name(#[trigger] next@[a]@) is Some
                                    && parse_name(next@[a]@) == parse_name(#[trigger] next@[b]@);
                            assert(pre@[a] == next@[a]);
                            if b < pre@.len() {
                                assert(pre@[b] == next@[b]);
                            } else {
                                assert(names_key(pre@, k));
                            }
                        }
                    }
                },
            }
            i = i + 1;
        }
        assert(names@.subrange(0, i as int) =~= names@);
        Ok(ro)
    }

    /// Adds `k` in its place; returns false, changing nothing, where `k` is
    /// already present.
    fn insert(&mut self, k: u64) -> (fresh: bool)
        requires
            old(self).wf(),
        ensures
            final(self).wf(),
            fresh == !old(self)@.contains(k),
            forall|x: u64| final(self)@.contains(x) <==> (old(self)@.contains(x) || x == k),
    {
        let mut p: usize = 0;
        while p < self.starts.len() && self.starts[p] < k
            invariant
                p <= self.starts@.len(),
                forall|j: int| 0 <= j < p ==> self.starts@[j] < k,
            decreases self.starts@.len() - p,
        {
            p = p + 1;
        }
        if p < self.starts.len() && self.starts[p] == k {
            assert(self@[p as int] == k);
            return false;
        }
        let ghost before = self.starts@;
        assert(!before.contains(k)) by {
            if before.contains(k) {
                let j = choose|j: int| 0 <= j < before.len() && before[j] == k;
                if j >= p {
                    assert(before[p as int] <= before[j]);
                }
            }
        }
        self.starts.insert(p, k);
        assert(self.starts@ == before.insert(p as int, k));
        assert forall|x: u64| self@.contains(x) <==> (before.contains(x) || x == k) by {
            if self@.contains(x) {
                let j = choose|j: int| 0 <= j < self@.len() && self@[j] == x;
                if j < p {
                    assert(before[j] == x);
                } else if j > p {
                    assert(before[j - 1] == x);
                }
            }
            if before.contains(x) {
                let j = choose|j: int| 0 <= j < before.len() && before[j] == x;
                if j < p {
                    assert(self@[j] == x);
                } else {
                    assert(self@[j + 1] == x);
                }
            }
            if x == k {
                assert(self@[p as int] == k);
            }
        }
        true
    }

    /// Where the roster is empty, adds the segment that starts at 0 and
    /// returns true: that segment file is then to be created.
    pub fn bootstrap(&mut self) -> (created: bool)
        requires
            old(self).wf(),
        ensures
            final(self).wf(),
            created == (old(self)@.len() == 0),
            created ==> final(self)@ == seq![0u64],
            !created ==> final(self)@ == old(self)@,
    {
        if self.starts.len() == 0 {
            self.starts.push(0);
            assert(self@ =~= seq![0u64]);
            true
        } else {
            false
        }
    }

    pub fn len(&self) -> (r: usize)
        ensures
            r == self@.len(),
    {
        self.starts.len()
    }

    /// The start offset of the `i`-th segment, lowest first.
    pub fn start(&self, i: usize) -> (r: u64)
        requires
            i < self@.len(),
        ensures
            r == self@[i as int],
    {
        self.starts[i]
    }

    /// The start offset of the active segment.
    pub fn active(&self) -> (r: Option<u64>)
        ensures
            self@.len() == 0 ==> r is None,
            self@.len() > 0 ==> r == Some(self@.last()),
    {
        if self.starts.len() == 0 {
            None
        } else {
            Some(self.starts[self.starts.len() - 1])
        }
    }

    /// The position of the segment with the greatest start offset that is at
    /// most `index`; `None` where `index` precedes every segment.
    pub fn floor(&self, index: u64) -> (r: Option<usize>)
        requires
            self.wf(),
        ensures
            r is None <==> (self@.len() == 0 || index < self@[0]),
            r matches Some(i) ==> i < self@.len() && self@[i as int] <= index && (i + 1
                < self@.len() ==> index < self@[i + 1]),
    {
        let mut found: Option<usize> = None;
        let mut i: usize = 0;
        while i < self.starts.len() && self.starts[i] <= index
            invariant
                i <= self@.len(),
                forall|j: int| 0 <= j < i ==> self@[j] <= index,
                i == 0 ==> found is None,
                i > 0 ==> found == Some((i - 1) as usize),
            decreases self@.len() - i,
        {
            found = Some(i);
            i = i + 1;
        }
        found
    }

    /// Adds a segment after the active one, which it replaces as active.
    pub fn roll(&mut self, next_start: u64)
        requires
            old(self).wf(),
            old(self)@.len() > 0 ==> old(self)@.last() < next_start,
        ensures
            final(self).wf(),
            final(self)@ == old(self)@.push(next_start),
    {
        self.starts.push(next_start);
    }

    /// Removes the `count` segments with the lowest start offsets.
    pub fn remove_oldest(&mut self, count: usize)
        requires
            old(self).wf(),
            count <= old(self)@.len(),
        ensures
            final(self).wf(),
            final(self)@ == old(self)@.subrange(count as int, old(self)@.len() as int),
    {
        let mut kept: Vec<u64> = Vec::new();
        let mut i: usize = count;
        while i < self.starts.len()
            invariant
                count <= i <= self.starts@.len(),
                kept@ == self.starts@.subrange(count as int, i as int),
            decreases self.starts@.len() - i,
        {
            kept.push(self.starts[i]);
            i = i + 1;
            assert(kept@ =~= self.starts@.subrange(count as int, i as int));
        }
        self.starts = kept;
    }
}

} // verus!
