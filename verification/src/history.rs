use vstd::prelude::*;
use crate::snapshot::{SnapModel, Snapshot};

verus! {

/// One accepted capture committed to a history sequence with retention
/// bound `max`: the capture is appended and, if the bound is now exceeded,
/// the oldest entry is evicted (strict FIFO eviction).
pub open spec fn record(h: Seq<SnapModel>, s: SnapModel, max: nat) -> Seq<SnapModel> {
    let grown = h.push(s);
    if grown.len() > max {
        grown.skip(1)
    } else {
        grown
    }
}

/// A whole run of accepted captures committed in order, oldest first.
pub open spec fn record_all(h: Seq<SnapModel>, items: Seq<SnapModel>, max: nat) -> Seq<SnapModel>
    decreases items.len(),
{
    if items.len() == 0 {
        h
    } else {
        record_all(record(h, items[0], max), items.skip(1), max)
    }
}

/// The bounded, ordered sequence of captures, oldest first, with its
/// configured retention bound.
pub struct History {
    pub entries: Vec<Snapshot>,
    pub max_history: usize,
}

impl View for History {
    type V = Seq<SnapModel>;

    open spec fn view(&self) -> Seq<SnapModel> {
        self.entries@.map_values(|s: Snapshot| s@)
    }
}

impl History {
    /// The retention bound is positive and the sequence never exceeds it.
    pub open spec fn wf(self) -> bool {
        1 <= self.max_history && self.entries@.len() <= self.max_history
    }

    /// An empty history with the given retention bound.
    pub fn new(max_history: usize) -> (r: History)
        requires
            max_history >= 1,
        ensures
            r.wf(),
            r.max_history == max_history,
            r@ == Seq::<SnapModel>::empty(),
    {
        let r = History { entries: Vec::new(), max_history };
        proof {
            assert(r@ =~= Seq::<SnapModel>::empty());
        }
        r
    }

    /// Wraps an already-loaded sequence of captures, enforcing the retention
    /// bound by evicting the oldest entries if the sequence is too long.
    pub fn from_entries(entries: Vec<Snapshot>, max_history: usize) -> (r: History)
        requires
            max_history >= 1,
        ensures
            r.wf(),
            r.max_history == max_history,
            entries@.len() <= max_history ==> r@ == entries@.map_values(|s: Snapshot| s@),
            entries@.len() > max_history ==> r@ == entries@.map_values(|s: Snapshot| s@).skip(
                entries@.len() - max_history,
            ),
    {
        let ghost full = entries@.map_values(|s: Snapshot| s@);
        let n = entries.len();
        let start: usize = if n > max_history {
            n - max_history
        } else {
            0
        };
        let kept = copy_from(&entries, start);
        proof {
            if start == 0 {
                assert(full.skip(0) =~= full);
            }
        }
        History { entries: kept, max_history }
    }

    /// Number of captures currently retained.
    pub fn len(&self) -> (n: usize)
        ensures
            n == self@.len(),
    {
        self.entries.len()
    }

    /// Commits one accepted capture: appends it and evicts the oldest entry
    /// if the retention bound would be exceeded.
    pub fn insert(&mut self, s: Snapshot)
        requires
            old(self).wf(),
        ensures
            final(self).wf(),
            final(self).max_history == old(self).max_history,
            final(self)@ == record(old(self)@, s@, old(self).max_history as nat),
    {
        let ghost prior = self@;
        let ghost sm = s@;
        self.entries.push(s);
        proof {
            assert(self.entries@.map_values(|e: Snapshot| e@) =~= prior.push(sm));
        }
        if self.entries.len() > self.max_history {
            let ghost grown = self.entries@;
            self.entries.remove(0);
            proof {
                assert(self.entries@ =~= grown.skip(1));
                assert(self.entries@.map_values(|e: Snapshot| e@) =~= prior.push(sm).skip(1));
            }
        }
    }

    /// The raw text of the capture at position `idx` (oldest first), copied
    /// out; `None` when the position is out of range.
    pub fn content_at(&self, idx: usize) -> (r: Option<Vec<char>>)
        ensures
            match r {
                Some(c) => idx < self@.len() && c@ == self@[idx as int].content,
                None => idx >= self@.len(),
            },
    {
        if idx < self.entries.len() {
            Some(copy_content(&self.entries[idx]))
        } else {
            None
        }
    }

    /// A consistent copy of the whole sequence, for one rendering frame.
    pub fn copy_entries(&self) -> (r: Vec<Snapshot>)
        ensures
            r@.map_values(|s: Snapshot| s@) == self@,
    {
        let out = copy_from(&self.entries, 0);
        proof {
            assert(self@.skip(0) =~= self@);
        }
        out
    }
}

/// Copies the captures from position `start` on, in order.
fn copy_from(v: &Vec<Snapshot>, start: usize) -> (r: Vec<Snapshot>)
    requires
        start <= v@.len(),
    ensures
        r@.len() == v@.len() - start,
        r@.map_values(|s: Snapshot| s@) == v@.map_values(|s: Snapshot| s@).skip(start as int),
{
    let mut out: Vec<Snapshot> = Vec::new();
    let mut i: usize = start;
    while i < v.len()
        invariant
            start <= i <= v@.len(),
            out@.len() == i - start,
            forall|j: int| 0 <= j < out@.len() ==> (#[trigger] out@[j])@ == v@[start + j]@,
        decreases v@.len() - i,
    {
        out.push(v[i].duplicate());
        i = i + 1;
    }
    proof {
        assert(out@.map_values(|s: Snapshot| s@) =~= v@.map_values(|s: Snapshot| s@).skip(
            start as int,
        ));
    }
    out
}

/// Helper for `content_at`: copies the content field of a capture.
fn copy_content(s: &Snapshot) -> (r: Vec<char>)
    ensures
        r@ == s@.content,
{
    crate::snapshot::copy_chars(&s.content)
}

/// Bounded retention, general form: committing any run of captures to a
/// well-formed history keeps its length within the bound, and the result is
/// exactly the last `max` elements of the old history followed by the run.
pub proof fn lemma_record_all(h: Seq<SnapModel>, items: Seq<SnapModel>, max: nat)
    requires
        1 <= max,
        h.len() <= max,
    ensures
        record_all(h, items, max).len() <= max,
        h.len() + items.len() <= max ==> record_all(h, items, max) == h + items,
        h.len() + items.len() > max ==> record_all(h, items, max) == (h + items).skip(
            h.len() + items.len() - max,
        ),
    decreases items.len(),
{
    if items.len() == 0 {
        assert(h + items =~= h);
    } else {
        let s = items[0];
        let rest = items.skip(1);
        let h2 = record(h, s, max);
        assert(record_all(h, items, max) == record_all(h2, rest, max));
        if h.len() < max {
            assert(h2 == h.push(s));
            lemma_record_all(h2, rest, max);
            assert(h2 + rest =~= h + items);
        } else {
            assert(h2 == h.push(s).skip(1));
            assert(h2.len() == h.len());
            lemma_record_all(h2, rest, max);
            assert(h2 + rest =~= (h + items).skip(1));
            if h2.len() + rest.len() <= max {
                assert(rest.len() == 0);
                assert(record_all(h, items, max) == h2);
                assert(h2 =~= (h + items).skip(h.len() + items.len() - max));
            } else {
                let k = h2.len() + rest.len() - max;
                assert(record_all(h, items, max) == (h2 + rest).skip(k));
                assert(((h + items).skip(1)).skip(k) =~= (h + items).skip(1 + k));
                assert(1 + k == h.len() + items.len() - max);
            }
        }
    }
}

/// Bounded retention from an empty history: the length never exceeds the
/// bound, and after committing more captures than the bound allows, the
/// history holds exactly the last `max` captures in insertion order.
pub proof fn lemma_bounded_retention(items: Seq<SnapModel>, max: nat)
    requires
        1 <= max,
    ensures
        record_all(Seq::<SnapModel>::empty(), items, max).len() <= max,
        items.len() <= max ==> record_all(Seq::<SnapModel>::empty(), items, max) == items,
        items.len() > max ==> record_all(Seq::<SnapModel>::empty(), items, max) == items.skip(
            items.len() - max,
        ),
{
    lemma_record_all(Seq::<SnapModel>::empty(), items, max);
    assert(Seq::<SnapModel>::empty() + items =~= items);
    if items.len() > max {
        assert((Seq::<SnapModel>::empty() + items).skip(items.len() - max) =~= items.skip(
            items.len() - max,
        ));
    }
}

} // verus!
