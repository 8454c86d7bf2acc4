use vstd::prelude::*;
use crate::model::IndexError;

verus! {

/// The phase of an indexing run.
#[derive(Clone, Copy, Debug, PartialEq, Eq, Structural)]
pub enum RunPhase {
    Idle,
    Running,
    Cancelling,
    Failed,
    Completed,
    Indexing,
    Done,
}

/// The heights lo, lo+1, ..., hi-1, in order.
pub open spec fn height_range(lo: int, hi: int) -> Seq<u64> {
    if hi <= lo {
        Seq::empty()
    } else {
        Seq::new((hi - lo) as nat, |i: int| (lo + i) as u64)
    }
}

proof fn lemma_height_range_push(lo: int, hi: int)
    requires
        0 <= lo <= hi < u64::MAX,
    ensures
        height_range(lo, hi + 1) == height_range(lo, hi).push(hi as u64),
{
    assert(height_range(lo, hi + 1) =~= height_range(lo, hi).push(hi as u64));
}

/// The decision core of the indexing run: which height to fetch next, when
/// to checkpoint, how cancellation and fetch failure end the loop, and what
/// is committed when. The surrounding program performs the fetches, writes
/// and commits, and reports each step back; the pipeline itself never blocks
/// or performs I/O, so a run can be driven and tested programmatically.
///
/// `committed` and `pending` model the store at height granularity: the
/// heights whose rows are durably committed, and the heights written inside
/// the currently open transaction. Together they are always the contiguous
/// range from `start_height` up to `next_height`.
pub struct Pipeline {
    pub phase: RunPhase,
    pub start_height: u64,
    pub end_height: u64,
    pub next_height: u64,
    pub checkpoint_interval: u64,
    pub fetch_failed: bool,
    pub committed: Vec<u64>,
    pub pending: Vec<u64>,
}

impl Pipeline {
    /// The state invariant: processed heights form the contiguous range
    /// [start_height, next_height), split between committed and pending.
    pub open spec fn wf(&self) -> bool {
        &&& self.checkpoint_interval > 0
        &&& self.end_height < u64::MAX
        &&& self.start_height <= self.next_height
        &&& self.committed@ + self.pending@ == height_range(
            self.start_height as int,
            self.next_height as int,
        )
    }

    /// Sets up a run over [start, min(requested_end, chain_tip)] with a
    /// checkpoint every `checkpoint_interval` heights.
    pub fn new(start: u64, requested_end: u64, chain_tip: u64, checkpoint_interval: u64) -> (p:
        Pipeline)
        requires
            checkpoint_interval > 0,
            chain_tip < u64::MAX,
        ensures
            p.wf(),
            p.phase == RunPhase::Idle,
            p.start_height == start,
            p.next_height == start,
            p.end_height == if chain_tip < requested_end {
                chain_tip
            } else {
                requested_end
            },
            p.checkpoint_interval == checkpoint_interval,
            !p.fetch_failed,
            p.committed@ == Seq::<u64>::empty(),
            p.pending@ == Seq::<u64>::empty(),
    {
        let end = if chain_tip < requested_end {
            chain_tip
        } else {
            requested_end
        };
        let p = Pipeline {
            phase: RunPhase::Idle,
            start_height: start,
            end_height: end,
            next_height: start,
            checkpoint_interval,
            fetch_failed: false,
            committed: Vec::new(),
            pending: Vec::new(),
        };
        proof {
            assert(p.committed@ + p.pending@ =~= height_range(start as int, start as int));
        }
        p
    }

    /// Starts the run.
    pub fn start(&mut self)
        requires
            old(self).phase == RunPhase::Idle,
            old(self).wf(),
        ensures
            final(self).wf(),
            *final(self) == (Pipeline { phase: RunPhase::Running, ..*old(self) }),
    {
        self.phase = RunPhase::Running;
    }

    /// The height to fetch next, while the loop is live: None once the range
    /// is exhausted or the loop has ended for another reason.
    pub fn current_fetch(&self) -> (r: Option<u64>)
        ensures
            r == if self.phase == RunPhase::Running && self.next_height <= self.end_height {
                Some(self.next_height)
            } else {
                None::<u64>
            },
    {
        if matches!(self.phase, RunPhase::Running) && self.next_height <= self.end_height {
            Some(self.next_height)
        } else {
            None
        }
    }

    /// Records that the block at `height` was classified and written inside
    /// the open transaction. Returns whether a checkpoint is due at this
    /// height.
    pub fn on_block_indexed(&mut self, height: u64) -> (checkpoint_due: bool)
        requires
            old(self).wf(),
            old(self).phase == RunPhase::Running,
            height == old(self).next_height,
            height <= old(self).end_height,
        ensures
            final(self).wf(),
            final(self).phase == RunPhase::Running,
            final(self).next_height == height + 1,
            final(self).committed@ == old(self).committed@,
            final(self).pending@ == old(self).pending@.push(height),
            final(self).start_height == old(self).start_height,
            final(self).end_height == old(self).end_height,
            final(self).checkpoint_interval == old(self).checkpoint_interval,
            final(self).fetch_failed == old(self).fetch_failed,
            checkpoint_due == (height % old(self).checkpoint_interval == 0),
    {
        self.pending.push(height);
        self.next_height = height + 1;
        proof {
            lemma_height_range_push(self.start_height as int, height as int);
            assert(self.committed@ + self.pending@ =~= height_range(
                self.start_height as int,
                height as int,
            ).push(height));
        }
        height % self.checkpoint_interval == 0
    }

    /// Records that the open transaction was committed and a fresh one
    /// opened: everything pending becomes durable.
    pub fn on_checkpoint_committed(&mut self)
        requires
            old(self).wf(),
        ensures
            final(self).wf(),
            final(self).committed@ == old(self).committed@ + old(self).pending@,
            final(self).pending@ == Seq::<u64>::empty(),
            final(self).phase == old(self).phase,
            final(self).next_height == old(self).next_height,
            final(self).start_height == old(self).start_height,
            final(self).end_height == old(self).end_height,
            final(self).checkpoint_interval == old(self).checkpoint_interval,
            final(self).fetch_failed == old(self).fetch_failed,
    {
        self.committed.append(&mut self.pending);
        proof {
            assert(self.committed@ + self.pending@ =~= self.committed@);
        }
    }

    /// Records a fetch failure: the loop stops, already committed and
    /// buffered work is kept, and the error is re-raised only after the
    /// final flush.
    pub fn on_fetch_error(&mut self)
        requires
            old(self).wf(),
            old(self).phase == RunPhase::Running,
        ensures
            final(self).wf(),
            *final(self) == (Pipeline {
                phase: RunPhase::Failed,
                fetch_failed: true,
                ..*old(self)
            }),
    {
        self.phase = RunPhase::Failed;
        self.fetch_failed = true;
    }

    /// Records that the cancellation flag was observed at a height boundary:
    /// the loop stops cleanly without an error.
    pub fn on_cancelled(&mut self)
        requires
            old(self).wf(),
            old(self).phase == RunPhase::Running,
        ensures
            final(self).wf(),
            *final(self) == (Pipeline { phase: RunPhase::Cancelling, ..*old(self) }),
    {
        self.phase = RunPhase::Cancelling;
    }

    /// Records that the height range is exhausted.
    pub fn on_range_exhausted(&mut self)
        requires
            old(self).wf(),
            old(self).phase == RunPhase::Running,
            old(self).next_height > old(self).end_height,
        ensures
            final(self).wf(),
            *final(self) == (Pipeline { phase: RunPhase::Completed, ..*old(self) }),
    {
        self.phase = RunPhase::Completed;
    }

    /// Records the final commit after the loop ended for any reason
    /// (completion, cancellation, or fetch failure): everything buffered
    /// becomes durable, and secondary index construction begins. Partial
    /// progress is never discarded because of a fetch failure.
    pub fn on_final_commit(&mut self)
        requires
            old(self).wf(),
            old(self).phase == RunPhase::Completed || old(self).phase == RunPhase::Cancelling
                || old(self).phase == RunPhase::Failed,
        ensures
            final(self).wf(),
            final(self).phase == RunPhase::Indexing,
            final(self).committed@ == old(self).committed@ + old(self).pending@,
            final(self).pending@ == Seq::<u64>::empty(),
            final(self).committed@ == height_range(
                old(self).start_height as int,
                old(self).next_height as int,
            ),
            final(self).fetch_failed == old(self).fetch_failed,
            final(self).start_height == old(self).start_height,
            final(self).end_height == old(self).end_height,
            final(self).next_height == old(self).next_height,
    {
        self.committed.append(&mut self.pending);
        self.phase = RunPhase::Indexing;
        proof {
            assert(self.committed@ + self.pending@ =~= self.committed@);
        }
    }

    /// Records that secondary index construction ended (all indexes built,
    /// or cut short by a second cancellation).
    pub fn on_indexing_finished(&mut self)
        requires
            old(self).wf(),
            old(self).phase == RunPhase::Indexing,
        ensures
            final(self).wf(),
            *final(self) == (Pipeline { phase: RunPhase::Done, ..*old(self) }),
    {
        self.phase = RunPhase::Done;
    }

    /// The outcome the run reports: a fetch failure is re-raised only now,
    /// after the final flush; a cancelled run is a success-class exit.
    pub fn run_outcome(&self) -> (r: Result<(), IndexError>)
        requires
            self.phase == RunPhase::Done,
        ensures
            r is Err <==> self.fetch_failed,
            r matches Err(e) ==> e is SourceUnavailable,
    {
        if self.fetch_failed {
            Err(IndexError::SourceUnavailable)
        } else {
            Ok(())
        }
    }
}

/// The rows a run derives for the heights lo..hi, given the per-height row
/// batches: the concatenation of the batches in height order.
pub open spec fn concat_range<A>(batches: Seq<Seq<A>>, lo: int, hi: int) -> Seq<A>
    decreases hi - lo,
{
    if lo < 0 || hi <= lo || hi > batches.len() {
        Seq::empty()
    } else {
        batches[lo] + concat_range(batches, lo + 1, hi)
    }
}

/// Checkpoint durability: a run interrupted right after a checkpoint commit
/// has committed exactly the batches of the heights before the checkpoint,
/// and a re-run picking up at the next height appends exactly the remaining
/// batches, so the two together equal an uninterrupted run. Row derivation
/// is a pure function of the block, so the split point does not matter.
pub proof fn lemma_checkpoint_resume<A>(batches: Seq<Seq<A>>, lo: int, mid: int, hi: int)
    requires
        0 <= lo <= mid <= hi <= batches.len(),
    ensures
        concat_range(batches, lo, mid) + concat_range(batches, mid, hi) == concat_range(
            batches,
            lo,
            hi,
        ),
    decreases mid - lo,
{
    if lo == mid {
        assert(concat_range(batches, lo, mid) + concat_range(batches, mid, hi) =~= concat_range(
            batches,
            lo,
            hi,
        ));
    } else {
        lemma_checkpoint_resume(batches, lo + 1, mid, hi);
        assert(concat_range(batches, lo, mid) + concat_range(batches, mid, hi) =~= batches[lo] + (
        concat_range(batches, lo + 1, mid) + concat_range(batches, mid, hi)));
        assert(concat_range(batches, lo, hi) =~= batches[lo] + concat_range(batches, lo + 1, hi));
    }
}

} // verus!
