//! The ordered prefetch window: up to `width` fetches are in flight at once,
//! their results arrive in any order, and they are released strictly in
//! ascending index order.
//!
//! The window decides; it fetches nothing itself. Its owner asks which index
//! to fetch next, reports each result as it arrives, and takes results out
//! as long as the next one in order is there.

use vstd::prelude::*;
use vstd::set_lib::{lemma_int_range, lemma_len_subset, set_int_range};

verus! {

/// The state of a window as the contracts speak of it.
pub struct WindowView<T> {
    /// How many indices may be issued and not yet released.
    pub width: nat,
    /// One past the last index of the range, or `None` for a range without end.
    pub end: Option<int>,
    /// The next index to be released.
    pub next_commit: int,
    /// The next index to be issued.
    pub next_issue: int,
    /// The results that have arrived and were not yet released.
    pub done: Map<int, T>,
}

impl<T> WindowView<T> {
    /// The state before anything was issued.
    pub open spec fn initial(start: int, end: Option<int>, width: nat) -> WindowView<T> {
        WindowView { width, end, next_commit: start, next_issue: start, done: Map::empty() }
    }

    /// What holds of every reachable state: the issued indices that were not
    /// released are at most `width`, and only such indices hold a result.
    pub open spec fn wf(self) -> bool {
        &&& self.next_commit <= self.next_issue <= self.next_commit + self.width
        &&& self.next_issue <= u64::MAX
        &&& forall|i: int| #[trigger]
            self.done.dom().contains(i) ==> self.next_commit <= i < self.next_issue
    }

    /// Whether another index may be issued.
    pub open spec fn can_issue(self) -> bool {
        &&& self.next_issue - self.next_commit < self.width
        &&& self.next_issue < u64::MAX
        &&& match self.end {
            Some(end) => self.next_issue < end,
            None => true,
        }
    }

    /// The state after the next index was issued.
    pub open spec fn issue(self) -> WindowView<T> {
        WindowView { next_issue: self.next_issue + 1, ..self }
    }

    /// Whether `index` is in flight: issued, with no result yet.
    pub open spec fn in_flight(self, index: int) -> bool {
        self.next_commit <= index < self.next_issue && !self.done.dom().contains(index)
    }

    /// The state after the result for `index` arrived.
    pub open spec fn complete(self, index: int, value: T) -> WindowView<T> {
        WindowView { done: self.done.insert(index, value), ..self }
    }

    /// Whether the next result in order is there.
    pub open spec fn can_release(self) -> bool {
        self.done.dom().contains(self.next_commit)
    }

    /// The state after the next result in order was taken out.
    pub open spec fn release(self) -> WindowView<T> {
        WindowView {
            next_commit: self.next_commit + 1,
            done: self.done.remove(self.next_commit),
            ..self
        }
    }

    /// Whether every index of the range was released.
    pub open spec fn finished(self) -> bool {
        match self.end {
            Some(end) => self.next_commit >= end,
            None => false,
        }
    }
}

/// Why a result was not accepted.
#[derive(Clone, Copy, Debug, PartialEq, Eq, Structural)]
pub enum WindowError {
    /// The index is not in flight: it was never issued, was released
    /// already, or its result has arrived before.
    NotInFlight,
}

/// A window over the indices from `start` on.
pub struct OrderedWindow<T> {
    width: usize,
    end: Option<u64>,
    next_commit: u64,
    /// One slot for each index issued and not released, in index order.
    slots: Vec<Option<T>>,
}

impl<T> View for OrderedWindow<T> {
    type V = WindowView<T>;

    closed spec fn view(&self) -> WindowView<T> {
        WindowView {
            width: self.width as nat,
            end: match self.end {
                Some(end) => Some(end as int),
                None => None,
            },
            next_commit: self.next_commit as int,
            next_issue: self.next_commit + self.slots@.len(),
            done: Map::new(
                |i: int|
                    self.next_commit <= i < self.next_commit + self.slots@.len()
                        && self.slots@[i - self.next_commit] is Some,
                |i: int| self.slots@[i - self.next_commit]->Some_0,
            ),
        }
    }
}

impl<T> OrderedWindow<T> {
    /// A window of the given width over `start..end`, or over all indices
    /// from `start` on where `end` is `None`. Nothing is issued yet.
    pub fn new(start: u64, end: Option<u64>, width: usize) -> (window: OrderedWindow<T>)
        ensures
            window@ == WindowView::<T>::initial(
                start as int,
                match end {
                    Some(e) => Some(e as int),
                    None => None,
                },
                width as nat,
            ),
            window@.wf(),
    {
        let window = OrderedWindow { width, end, next_commit: start, slots: Vec::new() };
        assert(window@.done =~= Map::empty());
        window
    }

    /// The next index to be released.
    pub fn next_commit(&self) -> (index: u64)
        ensures
            index == self@.next_commit,
    {
        self.next_commit
    }

    /// How many indices are issued and not yet released.
    pub fn pending(&self) -> (count: usize)
        ensures
            count == self@.next_issue - self@.next_commit,
    {
        self.slots.len()
    }

    /// Whether every index of the range was released.
    pub fn is_finished(&self) -> (finished: bool)
        ensures
            finished == self@.finished(),
    {
        match self.end {
            Some(end) => self.next_commit >= end,
            None => false,
        }
    }

    /// Issues the next index to fetch, if the window has room for one and
    /// the range holds one.
    pub fn next_fetch(&mut self) -> (issued: Option<u64>)
        requires
            old(self)@.wf(),
        ensures
            old(self)@.can_issue() ==> issued == Some(old(self)@.next_issue as u64) && final(self)@ == old(self)@.issue(),
            !old(self)@.can_issue() ==> issued is None && final(self)@ == old(self)@,
            final(self)@.wf(),
    {
        if self.slots.len() >= self.width {
            return None;
        }
        let index = self.next_commit + self.slots.len() as u64;
        if index == u64::MAX {
            return None;
        }
        match self.end {
            Some(end) => {
                if index >= end {
                    return None;
                }
            },
            None => {},
        }
        self.slots.push(None);
        assert(final(self)@.done =~= old(self)@.done);
        Some(index)
    }

    /// Records the result for `index`. A result for an index that is not in
    /// flight is refused and changes nothing.
    pub fn complete(&mut self, index: u64, value: T) -> (result: Result<(), WindowError>)
        requires
            old(self)@.wf(),
        ensures
            old(self)@.in_flight(index as int) ==> result is Ok && final(self)@ == old(self)@.complete(index as int, value),
            !old(self)@.in_flight(index as int) ==> result == Err::<(), WindowError>(
                WindowError::NotInFlight,
            ) && final(self)@ == old(self)@,
            final(self)@.wf(),
    {
        if index < self.next_commit {
            return Err(WindowError::NotInFlight);
        }
        let offset = index - self.next_commit;
        if offset >= self.slots.len() as u64 {
            return Err(WindowError::NotInFlight);
        }
        let at = offset as usize;
        if self.slots[at].is_some() {
            return Err(WindowError::NotInFlight);
        }
        self.slots.set(at, Some(value));
        assert(final(self)@.done =~= old(self)@.done.insert(index as int, value));
        Ok(())
    }

    /// Takes out the result of the next index in order, if it has arrived.
    pub fn release(&mut self) -> (released: Option<(u64, T)>)
        requires
            old(self)@.wf(),
        ensures
            old(self)@.can_release() ==> released == Some(
                (old(self)@.next_commit as u64, old(self)@.done[old(self)@.next_commit]),
            ) && final(self)@ == old(self)@.release(),
            !old(self)@.can_release() ==> released is None && final(self)@ == old(self)@,
            final(self)@.wf(),
    {
        if self.slots.len() == 0 {
            return None;
        }
        if self.slots[0].is_none() {
            return None;
        }
        let index = self.next_commit;
        let slot = self.slots.remove(0);
        self.next_commit = self.next_commit + 1;
        assert(final(self)@.done =~= old(self)@.done.remove(old(self)@.next_commit));
        match slot {
            Some(value) => Some((index, value)),
            None => None,
        }
    }
}

/// What can happen to a window.
pub enum WindowEvent<T> {
    /// The owner asks for the next index to fetch.
    Issue,
    /// A fetch reports its result.
    Complete { index: int, value: T },
    /// The owner asks for the next result in order.
    Release,
}

impl<T> WindowView<T> {
    /// The state after an event. An event that is not possible in a state
    /// leaves it as it is.
    pub open spec fn step(self, event: WindowEvent<T>) -> WindowView<T> {
        match event {
            WindowEvent::Issue => if self.can_issue() {
                self.issue()
            } else {
                self
            },
            WindowEvent::Complete { index, value } => if self.in_flight(index) {
                self.complete(index, value)
            } else {
                self
            },
            WindowEvent::Release => if self.can_release() {
                self.release()
            } else {
                self
            },
        }
    }

    /// The state after a sequence of events.
    pub open spec fn run(self, events: Seq<WindowEvent<T>>) -> WindowView<T>
        decreases events.len(),
    {
        if events.len() == 0 {
            self
        } else {
            self.run(events.drop_last()).step(events.last())
        }
    }

    /// The indices released during a sequence of events, in the order of
    /// their release.
    pub open spec fn released(self, events: Seq<WindowEvent<T>>) -> Seq<int>
        decreases events.len(),
    {
        if events.len() == 0 {
            Seq::empty()
        } else {
            let before = self.run(events.drop_last());
            let earlier = self.released(events.drop_last());
            if events.last() is Release && before.can_release() {
                earlier.push(before.next_commit)
            } else {
                earlier
            }
        }
    }

    /// The indices from `from` up to, not including, `to`, ascending.
    pub open spec fn span(from: int, to: int) -> Seq<int> {
        Seq::new((to - from) as nat, |k: int| from + k)
    }

    /// Whether nothing beyond the end of the range was issued.
    pub open spec fn in_range(self) -> bool {
        match self.end {
            Some(end) => self.next_issue <= end,
            None => true,
        }
    }

    /// Every event keeps a well-formed window well formed, and never moves
    /// the release point back.
    pub proof fn lemma_step_wf(self, event: WindowEvent<T>)
        requires
            self.wf(),
        ensures
            self.step(event).wf(),
            self.step(event).width == self.width,
            self.step(event).end == self.end,
            self.next_commit <= self.step(event).next_commit <= self.next_commit + 1,
            self.in_range() ==> self.step(event).in_range(),
    {
    }

    /// The buffer is bounded: a well-formed window holds at most `width`
    /// results that have arrived and were not released.
    pub proof fn lemma_buffer_bounded(self)
        requires
            self.wf(),
        ensures
            self.done.dom().finite(),
            self.done.dom().len() <= self.next_issue - self.next_commit <= self.width,
    {
        lemma_int_range(self.next_commit, self.next_issue);
        assert(self.done.dom().subset_of(set_int_range(self.next_commit, self.next_issue)));
        lemma_len_subset(self.done.dom(), set_int_range(self.next_commit, self.next_issue));
    }

    /// A window is never stuck: unless the whole range was released or the
    /// last index a `u64` holds was issued, a well-formed window of positive
    /// width either can issue an index, or can release a result, or waits
    /// for a result that is in flight.
    pub proof fn lemma_never_stuck(self)
        requires
            self.wf(),
            self.in_range(),
            self.width > 0,
            !self.finished(),
            self.next_issue < u64::MAX,
        ensures
            self.can_issue() || self.can_release() || exists|i: int| self.in_flight(i),
    {
        if !self.can_issue() && !self.can_release() {
            assert(self.next_commit < self.next_issue);
            assert(self.in_flight(self.next_commit));
        }
    }

    /// Every sequence of events keeps a well-formed window well formed.
    pub proof fn lemma_run_wf(self, events: Seq<WindowEvent<T>>)
        requires
            self.wf(),
        ensures
            self.run(events).wf(),
            self.run(events).width == self.width,
            self.run(events).end == self.end,
            self.next_commit <= self.run(events).next_commit,
            self.in_range() ==> self.run(events).in_range(),
        decreases events.len(),
    {
        if events.len() > 0 {
            self.lemma_run_wf(events.drop_last());
            self.run(events.drop_last()).lemma_step_wf(events.last());
        }
    }

    /// Results leave in index order without a gap: whatever the events are
    /// and in whatever order the results arrive, the indices released are
    /// exactly those from the first release point up to the last one,
    /// ascending, each once.
    pub proof fn lemma_released_in_order(self, events: Seq<WindowEvent<T>>)
        requires
            self.wf(),
        ensures
            self.released(events) == Self::span(self.next_commit, self.run(events).next_commit),
        decreases events.len(),
    {
        if events.len() == 0 {
            assert(self.released(events) =~= Self::span(self.next_commit, self.next_commit));
        } else {
            let head = events.drop_last();
            self.lemma_released_in_order(head);
            self.lemma_run_wf(head);
            let before = self.run(head);
            if events.last() is Release && before.can_release() {
                assert(Self::span(self.next_commit, before.next_commit).push(before.next_commit)
                    =~= Self::span(self.next_commit, before.next_commit + 1));
            }
        }
    }

    /// A pass that has finished has released the whole range: started on
    /// `start..end`, a window that reports itself finished has released
    /// exactly the indices `start`, `start + 1`, up to `end - 1`.
    pub proof fn lemma_finished_pass(start: int, end: int, width: nat, events: Seq<WindowEvent<T>>)
        requires
            0 <= start <= end <= u64::MAX,
            Self::initial(start, Some(end), width).run(events).finished(),
        ensures
            Self::initial(start, Some(end), width).released(events) == Self::span(start, end),
            Self::initial(start, Some(end), width).released(events).len() == end - start,
    {
        let first = Self::initial(start, Some(end), width);
        first.lemma_run_wf(events);
        first.lemma_released_in_order(events);
    }
}

} // verus!
