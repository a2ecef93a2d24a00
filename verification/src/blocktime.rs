//! Block times: the gap-free index from block height to block timestamp,
//! and the passes that fill it.
//!
//! The index starts right above a fixed floor and grows by one height at a
//! time. A pass covers the heights from the resume point up to the chain tip
//! with the same prefetch and commit discipline as the session log.

use vstd::prelude::*;
use crate::sync::{SyncEvent, SyncView, Synchronizer};
use crate::window::WindowView;

verus! {

/// The height below the first one that is indexed.
pub const BLOCK_FLOOR: u32 = 820000;

/// How many headers are fetched ahead of the one being committed.
pub const BLOCK_WINDOW: usize = 4;

/// Seconds to rest between two passes.
pub const PASS_INTERVAL_SECS: u64 = 10;

/// One row of the index.
#[derive(Clone, Copy, Debug, PartialEq, Eq, Structural)]
pub struct BlockTime {
    pub height: u32,
    pub time: u32,
}

/// What became of a row offered to the index.
#[derive(Clone, Copy, Debug, PartialEq, Eq, Structural)]
pub enum Appended {
    /// The row is the next one and was added.
    Inserted,
    /// The index holds a row for this height already; nothing changed.
    Duplicate,
    /// The height is at or below the floor, or leaves a gap; nothing changed.
    OutOfOrder,
}

/// Whether the rows are those of the heights right above the floor, in
/// order and without a gap.
pub open spec fn contiguous(rows: Seq<BlockTime>) -> bool {
    forall|i: int| 0 <= i < rows.len() ==> (#[trigger] rows[i]).height == BLOCK_FLOOR + 1 + i
}

/// The height that the next row must have.
pub open spec fn next_height(rows: Seq<BlockTime>) -> int {
    BLOCK_FLOOR + 1 + rows.len()
}

/// What offering a row to the index gives.
pub open spec fn offer_outcome(rows: Seq<BlockTime>, row: BlockTime) -> Appended {
    if row.height == next_height(rows) {
        Appended::Inserted
    } else if BLOCK_FLOOR < row.height < next_height(rows) {
        Appended::Duplicate
    } else {
        Appended::OutOfOrder
    }
}

/// The rows after a row was offered.
pub open spec fn offer(rows: Seq<BlockTime>, row: BlockTime) -> Seq<BlockTime> {
    if row.height == next_height(rows) {
        rows.push(row)
    } else {
        rows
    }
}

/// The height at which a pass resumes: one above the highest persisted
/// height, or one above the floor where none is persisted.
pub open spec fn resume_point(last_persisted: Option<u64>) -> int {
    match last_persisted {
        Some(last) => last + 1,
        None => BLOCK_FLOOR + 1,
    }
}

/// The height at which a pass resumes, where a header height can hold it.
pub fn resume_height(last_persisted: Option<u64>) -> (next: Option<u32>)
    ensures
        next == if resume_point(last_persisted) <= u32::MAX {
            Some(resume_point(last_persisted) as u32)
        } else {
            None
        },
{
    match last_persisted {
        Some(last) => {
            if last < u32::MAX as u64 {
                Some((last + 1) as u32)
            } else {
                None
            }
        },
        None => Some(BLOCK_FLOOR + 1),
    }
}

/// The synchronizer of one pass over the heights from `resume` up to and
/// including `tip`. Its results are block timestamps. A resume point above
/// the tip gives a pass that is finished from the start.
pub fn pass_synchronizer(resume: u32, tip: u32) -> (sync: Synchronizer<u32>)
    ensures
        sync@ == SyncView::<u32>::initial(resume as int, Some(tip + 1), BLOCK_WINDOW as nat),
        sync@.wf(),
{
    Synchronizer::new(resume as u64, Some(tip as u64 + 1), BLOCK_WINDOW)
}

/// The index from block height to block timestamp.
#[derive(Debug)]
pub struct BlockTimes {
    rows: Vec<BlockTime>,
}

impl View for BlockTimes {
    type V = Seq<BlockTime>;

    closed spec fn view(&self) -> Seq<BlockTime> {
        self.rows@
    }
}

impl BlockTimes {
    /// Whether the index is gap-free from the floor on.
    pub open spec fn wf(&self) -> bool {
        contiguous(self@)
    }

    /// The empty index.
    pub fn new() -> (index: BlockTimes)
        ensures
            index@ == Seq::<BlockTime>::empty(),
            index.wf(),
    {
        BlockTimes { rows: Vec::new() }
    }

    /// How many rows the index holds.
    pub fn len(&self) -> (count: usize)
        ensures
            count == self@.len(),
    {
        self.rows.len()
    }

    /// The highest height in the index.
    pub fn last_height(&self) -> (last: Option<u64>)
        requires
            self.wf(),
        ensures
            last == if self@.len() == 0 {
                None
            } else {
                Some((BLOCK_FLOOR + self@.len()) as u64)
            },
            self@.len() > 0 ==> last == Some(self@.last().height as u64),
    {
        if self.rows.len() == 0 {
            None
        } else {
            Some(self.rows[self.rows.len() - 1].height as u64)
        }
    }

    /// The timestamp of the block at `height`, if the index holds it.
    pub fn time_at(&self, height: u32) -> (time: Option<u32>)
        requires
            self.wf(),
        ensures
            time == if BLOCK_FLOOR < height < next_height(self@) {
                Some(self@[height - BLOCK_FLOOR - 1].time)
            } else {
                None
            },
    {
        if height <= BLOCK_FLOOR {
            return None;
        }
        let offset = (height - BLOCK_FLOOR - 1) as usize;
        if offset < self.rows.len() {
            Some(self.rows[offset].time)
        } else {
            None
        }
    }

    /// Offers a row to the index. Only the row of the next height is added;
    /// a row for a height that is there already is recognised and changes
    /// nothing, and so does one that would leave a gap.
    pub fn append(&mut self, row: BlockTime) -> (outcome: Appended)
        requires
            old(self).wf(),
        ensures
            final(self).wf(),
            final(self)@ == offer(old(self)@, row),
            outcome == offer_outcome(old(self)@, row),
    {
        proof {
            if self.rows@.len() > 0 {
                assert(self.rows@[self.rows@.len() - 1].height == BLOCK_FLOOR + self.rows@.len());
            }
        }
        let next = BLOCK_FLOOR as u64 + 1 + self.rows.len() as u64;
        if row.height as u64 == next {
            self.rows.push(row);
            Appended::Inserted
        } else if BLOCK_FLOOR < row.height && (row.height as u64) < next {
            Appended::Duplicate
        } else {
            Appended::OutOfOrder
        }
    }

    /// A copy of all rows, ascending by height.
    pub fn rows(&self) -> (rows: Vec<BlockTime>)
        ensures
            rows@ == self@,
    {
        let mut rows: Vec<BlockTime> = Vec::new();
        let mut i: usize = 0;
        while i < self.rows.len()
            invariant
                i <= self.rows.len(),
                rows@ == self.rows@.take(i as int),
            decreases self.rows.len() - i,
        {
            rows.push(self.rows[i]);
            assert(self.rows@.take(i as int).push(self.rows@[i as int]) =~= self.rows@.take(
                i as int + 1,
            ));
            i += 1;
        }
        assert(self.rows@.take(i as int) =~= self.rows@);
        rows
    }
}

/// The rows after the rows of the given heights were offered in order, the
/// row of height `h` holding the timestamp `time(h)`.
pub open spec fn offer_all(rows: Seq<BlockTime>, heights: Seq<int>, time: spec_fn(int) -> u32) -> Seq<
    BlockTime,
>
    decreases heights.len(),
{
    if heights.len() == 0 {
        rows
    } else {
        offer(
            offer_all(rows, heights.drop_last(), time),
            BlockTime { height: heights.last() as u32, time: time(heights.last()) },
        )
    }
}

/// Offering the heights `from..to` in order to a gap-free index whose next
/// height is `from` adds one row for each of them and nothing else, and
/// leaves the index gap-free.
pub proof fn lemma_offer_span(rows: Seq<BlockTime>, from: int, to: int, time: spec_fn(int) -> u32)
    requires
        contiguous(rows),
        from == next_height(rows),
        from <= to <= u32::MAX + 1,
    ensures
        contiguous(offer_all(rows, WindowView::<u32>::span(from, to), time)),
        offer_all(rows, WindowView::<u32>::span(from, to), time).len() == rows.len() + (to - from),
        offer_all(rows, WindowView::<u32>::span(from, to), time).take(rows.len() as int) == rows,
        forall|h: int|
            from <= h < to ==> (#[trigger] offer_all(
                rows,
                WindowView::<u32>::span(from, to),
                time,
            )[h - BLOCK_FLOOR - 1]) == (BlockTime { height: h as u32, time: time(h) }),
    decreases to - from,
{
    let heights = WindowView::<u32>::span(from, to);
    if from == to {
        assert(offer_all(rows, heights, time).take(rows.len() as int) =~= rows);
    } else {
        let head = WindowView::<u32>::span(from, to - 1);
        assert(heights.drop_last() =~= head);
        lemma_offer_span(rows, from, to - 1, time);
        let before = offer_all(rows, head, time);
        let after = offer_all(rows, heights, time);
        assert(heights.last() == to - 1);
        assert(after == before.push(BlockTime { height: (to - 1) as u32, time: time(to - 1) }));
        assert(after.take(rows.len() as int) =~= before.take(rows.len() as int));
        assert forall|h: int| from <= h < to implies (#[trigger] after[h - BLOCK_FLOOR - 1]) == (
        BlockTime { height: h as u32, time: time(h) }) by {
            if h < to - 1 {
                assert(before[h - BLOCK_FLOOR - 1] == (BlockTime { height: h as u32, time: time(h) }));
            }
        }
    }
}

/// Block-time backfill: a pass over the heights `from` up to and including
/// `tip` that has finished has committed exactly these heights, ascending;
/// offered in that order to a gap-free index whose next height is `from`,
/// they give `tip - from + 1` new rows, one for each height of the pass,
/// and the index stays gap-free.
pub proof fn lemma_backfill_pass(
    rows: Seq<BlockTime>,
    from: int,
    tip: int,
    events: Seq<SyncEvent<u32>>,
    time: spec_fn(int) -> u32,
)
    requires
        contiguous(rows),
        from == next_height(rows),
        from <= tip + 1 <= u32::MAX + 1,
        SyncView::<u32>::initial(from, Some(tip + 1), BLOCK_WINDOW as nat).run(events).finished(),
    ensures
        SyncView::<u32>::initial(from, Some(tip + 1), BLOCK_WINDOW as nat).confirmed(events)
            == WindowView::<u32>::span(from, tip + 1),
        contiguous(
            offer_all(
                rows,
                SyncView::<u32>::initial(from, Some(tip + 1), BLOCK_WINDOW as nat).confirmed(events),
                time,
            ),
        ),
        offer_all(
            rows,
            SyncView::<u32>::initial(from, Some(tip + 1), BLOCK_WINDOW as nat).confirmed(events),
            time,
        ).len() == rows.len() + (tip - from + 1),
{
    SyncView::<u32>::lemma_finished_pass(from, tip + 1, BLOCK_WINDOW as nat, events);
    lemma_offer_span(rows, from, tip + 1, time);
}

} // verus!
