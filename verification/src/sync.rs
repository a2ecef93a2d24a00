//! The synchronizer discipline shared by the session log and the block
//! times: results are prefetched through an ordered window, and committed
//! one at a time in index order. A commit that fails halts the
//! synchronizer, and what it had not confirmed is not counted.
//!
//! The synchronizer decides and waits for nothing. Its owner performs the
//! fetches and the commits, and reports how they went.

use vstd::prelude::*;
use crate::window::{OrderedWindow, WindowView};

verus! {

/// Where a synchronizer stands.
#[derive(Clone, Copy, Debug, PartialEq, Eq, Structural)]
pub enum Phase {
    /// No commit is under way.
    Running,
    /// One result was handed out for commit and its fate is not known yet.
    Committing,
    /// A commit failed: nothing more is issued, accepted or handed out.
    Halted,
}

/// Why a fetched result was not accepted.
#[derive(Clone, Copy, Debug, PartialEq, Eq, Structural)]
pub enum FetchError {
    /// The synchronizer has halted.
    Halted,
    /// The index is not in flight.
    NotInFlight,
}

/// The state of a synchronizer as the contracts speak of it.
pub struct SyncView<T> {
    pub window: WindowView<T>,
    /// The next index that is not durably committed: all before it, from the
    /// start on, are.
    pub committed: int,
    pub phase: Phase,
}

/// What can happen to a synchronizer.
pub enum SyncEvent<T> {
    /// The owner asks for the next index to fetch.
    Issue,
    /// A fetch reports its result.
    Fetched { index: int, value: T },
    /// The owner asks for the next result to commit.
    BeginCommit,
    /// The owner reports whether the commit under way was persisted.
    CommitDone { persisted: bool },
}

impl<T> SyncView<T> {
    /// The state of a synchronizer that starts at `start`.
    pub open spec fn initial(start: int, end: Option<int>, width: nat) -> SyncView<T> {
        SyncView {
            window: WindowView::initial(start, end, width),
            committed: start,
            phase: Phase::Running,
        }
    }

    /// What holds of every reachable state: the window is well formed, and
    /// its release point is the commit point, or one past it while that one
    /// result is being committed.
    pub open spec fn wf(self) -> bool {
        &&& self.window.wf()
        &&& self.committed >= 0
        &&& match self.phase {
            Phase::Running => self.window.next_commit == self.committed,
            Phase::Committing => self.window.next_commit == self.committed + 1,
            Phase::Halted => self.committed <= self.window.next_commit <= self.committed + 1,
        }
    }

    /// Whether an index may be issued.
    pub open spec fn can_issue(self) -> bool {
        self.phase != Phase::Halted && self.window.can_issue()
    }

    /// Whether the result for `index` would be accepted.
    pub open spec fn accepts(self, index: int) -> bool {
        self.phase != Phase::Halted && self.window.in_flight(index)
    }

    /// Whether a commit may begin: none is under way, and the result that
    /// follows the committed ones has arrived.
    pub open spec fn can_commit(self) -> bool {
        self.phase == Phase::Running && self.window.can_release()
    }

    /// Whether the whole range is committed.
    pub open spec fn finished(self) -> bool {
        self.phase == Phase::Running && self.window.finished()
    }

    /// The state after an event. An event that is not possible in a state
    /// leaves it as it is.
    pub open spec fn step(self, event: SyncEvent<T>) -> SyncView<T> {
        match event {
            SyncEvent::Issue => if self.can_issue() {
                SyncView { window: self.window.issue(), ..self }
            } else {
                self
            },
            SyncEvent::Fetched { index, value } => if self.accepts(index) {
                SyncView { window: self.window.complete(index, value), ..self }
            } else {
                self
            },
            SyncEvent::BeginCommit => if self.can_commit() {
                SyncView { window: self.window.release(), phase: Phase::Committing, ..self }
            } else {
                self
            },
            SyncEvent::CommitDone { persisted } => if self.phase == Phase::Committing {
                if persisted {
                    SyncView { committed: self.committed + 1, phase: Phase::Running, ..self }
                } else {
                    SyncView { phase: Phase::Halted, ..self }
                }
            } else {
                self
            },
        }
    }

    /// The state after a sequence of events.
    pub open spec fn run(self, events: Seq<SyncEvent<T>>) -> SyncView<T>
        decreases events.len(),
    {
        if events.len() == 0 {
            self
        } else {
            self.run(events.drop_last()).step(events.last())
        }
    }

    /// The indices handed out for commit during a sequence of events, in
    /// order.
    pub open spec fn attempted(self, events: Seq<SyncEvent<T>>) -> Seq<int>
        decreases events.len(),
    {
        if events.len() == 0 {
            Seq::empty()
        } else {
            let before = self.run(events.drop_last());
            let earlier = self.attempted(events.drop_last());
            if events.last() is BeginCommit && before.can_commit() {
                earlier.push(before.committed)
            } else {
                earlier
            }
        }
    }

    /// The indices whose commit was confirmed during a sequence of events,
    /// in order.
    pub open spec fn confirmed(self, events: Seq<SyncEvent<T>>) -> Seq<int>
        decreases events.len(),
    {
        if events.len() == 0 {
            Seq::empty()
        } else {
            let before = self.run(events.drop_last());
            let earlier = self.confirmed(events.drop_last());
            if events.last() == (SyncEvent::<T>::CommitDone { persisted: true }) && before.phase
                == Phase::Committing {
                earlier.push(before.committed)
            } else {
                earlier
            }
        }
    }

    /// Every event keeps a well-formed synchronizer well formed. The commit
    /// point never moves back, and a halted synchronizer stays as it is.
    pub proof fn lemma_step_wf(self, event: SyncEvent<T>)
        requires
            self.wf(),
        ensures
            self.step(event).wf(),
            self.committed <= self.step(event).committed <= self.committed + 1,
            self.window.in_range() ==> self.step(event).window.in_range(),
            self.step(event).window.end == self.window.end,
            self.phase == Phase::Halted ==> self.step(event) == self,
    {
    }

    /// Every sequence of events keeps a well-formed synchronizer well formed.
    pub proof fn lemma_run_wf(self, events: Seq<SyncEvent<T>>)
        requires
            self.wf(),
        ensures
            self.run(events).wf(),
            self.committed <= self.run(events).committed,
            self.window.in_range() ==> self.run(events).window.in_range(),
            self.run(events).window.end == self.window.end,
            self.phase == Phase::Halted ==> self.run(events) == self,
        decreases events.len(),
    {
        if events.len() > 0 {
            self.lemma_run_wf(events.drop_last());
            self.run(events.drop_last()).lemma_step_wf(events.last());
        }
    }

    /// Commits are gap-free and in order: whatever the events are and in
    /// whatever order the results arrive, the indices whose commit was
    /// confirmed are exactly those from the starting commit point up to the
    /// present one, ascending, each once.
    pub proof fn lemma_confirmed_in_order(self, events: Seq<SyncEvent<T>>)
        requires
            self.wf(),
        ensures
            self.confirmed(events) == WindowView::<T>::span(
                self.committed,
                self.run(events).committed,
            ),
        decreases events.len(),
    {
        if events.len() == 0 {
            assert(self.confirmed(events) =~= WindowView::<T>::span(self.committed, self.committed));
        } else {
            let head = events.drop_last();
            self.lemma_confirmed_in_order(head);
            self.lemma_run_wf(head);
            let before = self.run(head);
            if events.last() == (SyncEvent::<T>::CommitDone { persisted: true }) && before.phase
                == Phase::Committing {
                assert(WindowView::<T>::span(self.committed, before.committed).push(
                    before.committed,
                ) =~= WindowView::<T>::span(self.committed, before.committed + 1));
            }
        }
    }

    /// A failed commit counts for nothing: the commit point stays where it
    /// was, and no event that follows moves it or hands out another result.
    pub proof fn lemma_failed_commit_halts(self, events: Seq<SyncEvent<T>>)
        requires
            self.wf(),
            self.phase == Phase::Committing,
        ensures
            self.step(SyncEvent::CommitDone { persisted: false }).run(events).committed
                == self.committed,
            self.step(SyncEvent::CommitDone { persisted: false }).attempted(events)
                == Seq::<int>::empty(),
            self.step(SyncEvent::CommitDone { persisted: false }).confirmed(events)
                == Seq::<int>::empty(),
        decreases events.len(),
    {
        let halted = self.step(SyncEvent::CommitDone { persisted: false });
        halted.lemma_run_wf(events);
        if events.len() > 0 {
            self.lemma_failed_commit_halts(events.drop_last());
            halted.lemma_run_wf(events.drop_last());
        }
    }

    /// A synchronizer started at `start` resumes there: the first result it
    /// hands out for commit is that of `start`, and each later one follows
    /// the one before it.
    pub proof fn lemma_attempts_resume(start: int, end: Option<int>, width: nat, events: Seq<SyncEvent<T>>)
        requires
            0 <= start <= u64::MAX,
        ensures
            forall|k: int|
                0 <= k < Self::initial(start, end, width).attempted(events).len() ==> (
                #[trigger] Self::initial(start, end, width).attempted(events)[k]) == start + k,
    {
        let first = Self::initial(start, end, width);
        first.lemma_attempts_count(events);
    }

    /// The results handed out for commit are those confirmed, and at most
    /// one more: the indices from the starting commit point on, ascending.
    pub proof fn lemma_attempts_count(self, events: Seq<SyncEvent<T>>)
        requires
            self.wf(),
            self.phase == Phase::Running,
        ensures
            self.attempted(events) == WindowView::<T>::span(
                self.committed,
                self.run(events).window.next_commit,
            ),
        decreases events.len(),
    {
        if events.len() == 0 {
            assert(self.attempted(events) =~= WindowView::<T>::span(self.committed, self.committed));
        } else {
            let head = events.drop_last();
            self.lemma_attempts_count(head);
            self.lemma_run_wf(head);
            let before = self.run(head);
            before.lemma_step_wf(events.last());
            if events.last() is BeginCommit && before.can_commit() {
                assert(WindowView::<T>::span(self.committed, before.committed).push(
                    before.committed,
                ) =~= WindowView::<T>::span(self.committed, before.committed + 1));
            }
        }
    }

    /// A pass that has finished has committed the whole range: started on
    /// `start..end`, a synchronizer that reports itself finished has
    /// confirmed exactly the indices `start`, `start + 1`, up to `end - 1`.
    pub proof fn lemma_finished_pass(start: int, end: int, width: nat, events: Seq<SyncEvent<T>>)
        requires
            0 <= start <= end <= u64::MAX,
            Self::initial(start, Some(end), width).run(events).finished(),
        ensures
            Self::initial(start, Some(end), width).confirmed(events) == WindowView::<T>::span(
                start,
                end,
            ),
            Self::initial(start, Some(end), width).confirmed(events).len() == end - start,
    {
        let first = Self::initial(start, Some(end), width);
        first.lemma_run_wf(events);
        first.lemma_confirmed_in_order(events);
    }
}

/// A synchronizer over the indices from `start` on.
pub struct Synchronizer<T> {
    window: OrderedWindow<T>,
    committed: u64,
    phase: Phase,
}

impl<T> View for Synchronizer<T> {
    type V = SyncView<T>;

    closed spec fn view(&self) -> SyncView<T> {
        SyncView { window: self.window@, committed: self.committed as int, phase: self.phase }
    }
}

impl<T> Synchronizer<T> {
    /// A synchronizer that resumes at `start`, over `start..end` or without
    /// end, with at most `width` results fetched ahead.
    pub fn new(start: u64, end: Option<u64>, width: usize) -> (sync: Synchronizer<T>)
        ensures
            sync@ == SyncView::<T>::initial(
                start as int,
                match end {
                    Some(e) => Some(e as int),
                    None => None,
                },
                width as nat,
            ),
            sync@.wf(),
    {
        Synchronizer { window: OrderedWindow::new(start, end, width), committed: start, phase: Phase::Running }
    }

    /// The next index that is not durably committed.
    pub fn committed(&self) -> (index: u64)
        ensures
            index == self@.committed,
    {
        self.committed
    }

    /// Where the synchronizer stands.
    pub fn phase(&self) -> (phase: Phase)
        ensures
            phase == self@.phase,
    {
        self.phase
    }

    /// Whether the whole range is committed.
    pub fn is_finished(&self) -> (finished: bool)
        ensures
            finished == self@.finished(),
    {
        match self.phase {
            Phase::Running => self.window.is_finished(),
            _ => false,
        }
    }

    /// Issues the next index to fetch, if there is room for one.
    pub fn next_fetch(&mut self) -> (issued: Option<u64>)
        requires
            old(self)@.wf(),
        ensures
            final(self)@ == old(self)@.step(SyncEvent::Issue),
            final(self)@.wf(),
            issued == if old(self)@.can_issue() {
                Some(old(self)@.window.next_issue as u64)
            } else {
                None
            },
    {
        match self.phase {
            Phase::Halted => None,
            _ => self.window.next_fetch(),
        }
    }

    /// Records the result of the fetch for `index`.
    pub fn fetched(&mut self, index: u64, value: T) -> (result: Result<(), FetchError>)
        requires
            old(self)@.wf(),
        ensures
            final(self)@ == old(self)@.step(SyncEvent::Fetched { index: index as int, value }),
            final(self)@.wf(),
            result == if old(self)@.accepts(index as int) {
                Ok::<(), FetchError>(())
            } else if old(self)@.phase == Phase::Halted {
                Err::<(), FetchError>(FetchError::Halted)
            } else {
                Err::<(), FetchError>(FetchError::NotInFlight)
            },
    {
        match self.phase {
            Phase::Halted => Err(FetchError::Halted),
            _ => match self.window.complete(index, value) {
                Ok(()) => Ok(()),
                Err(_) => Err(FetchError::NotInFlight),
            },
        }
    }

    /// Hands out the next result to commit: the one that follows the
    /// committed ones, once it has arrived and no commit is under way.
    pub fn begin_commit(&mut self) -> (next: Option<(u64, T)>)
        requires
            old(self)@.wf(),
        ensures
            final(self)@ == old(self)@.step(SyncEvent::BeginCommit),
            final(self)@.wf(),
            next == if old(self)@.can_commit() {
                Some((old(self)@.committed as u64, old(self)@.window.done[old(self)@.committed]))
            } else {
                None
            },
    {
        match self.phase {
            Phase::Running => {
                let released = self.window.release();
                if released.is_some() {
                    self.phase = Phase::Committing;
                }
                released
            },
            _ => None,
        }
    }

    /// Takes note of how the commit under way ended. A persisted commit
    /// moves the commit point on by one; a failed one halts the synchronizer.
    pub fn commit_done(&mut self, persisted: bool)
        requires
            old(self)@.wf(),
        ensures
            final(self)@ == old(self)@.step(SyncEvent::CommitDone { persisted }),
            final(self)@.wf(),
    {
        match self.phase {
            Phase::Committing => {
                if persisted {
                    self.committed = self.committed + 1;
                    self.phase = Phase::Running;
                } else {
                    self.phase = Phase::Halted;
                }
            },
            _ => {},
        }
    }
}

} // verus!
