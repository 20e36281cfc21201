//! The walk through history, one snapshot at a time.
//!
//! Fetching a snapshot is the caller's work. The walker decides: it says
//! whether another snapshot is wanted, takes what the caller could fetch,
//! and keeps the entries resolved so far.

use vstd::prelude::*;
use crate::error::ResolveError;
use crate::model::{PendingItemView, ResolvedEntry, ResolvedEntryView};
use crate::pending::{changed_at, distinct_paths, drained, unchanged_at, PendingSet};
use crate::snapshot::{Snapshot, SnapshotView};
use crate::walk::{
    depth, lemma_walk_cost_is_bounded, lemma_walk_of_nothing, lemma_walk_settles_every_item,
    lookups, settled, walk,
};

verus! {

/// What the caller reports to the walker.
#[derive(Debug, PartialEq, Eq)]
pub enum WalkEvent {
    /// The next older snapshot.
    Snapshot(Snapshot),
    /// History has no older snapshot.
    Exhausted,
    /// The next snapshot could not be had.
    Failed(ResolveError),
}

/// What a [`WalkEvent`] is in contracts.
pub enum WalkEventView {
    Snapshot(SnapshotView),
    Exhausted,
    Failed(ResolveError),
}

impl View for WalkEvent {
    type V = WalkEventView;

    open spec fn view(&self) -> WalkEventView {
        match *self {
            WalkEvent::Snapshot(snapshot) => WalkEventView::Snapshot(snapshot@),
            WalkEvent::Exhausted => WalkEventView::Exhausted,
            WalkEvent::Failed(error) => WalkEventView::Failed(error),
        }
    }
}

/// What the walker asks of the caller.
#[derive(Clone, Copy, Debug, PartialEq, Eq, Structural)]
pub enum WalkAction {
    /// Fetch the next older snapshot and report it.
    Fetch,
    /// Fetch nothing more: the walk is over.
    Stop,
}

/// The state of a walk in contracts.
pub struct WalkerView {
    /// The entries whose last change is not known yet.
    pub pending: Seq<PendingItemView>,
    /// The entries resolved so far, in the order in which they were.
    pub resolved: Seq<ResolvedEntryView>,
    /// The failure that ended the walk, if one did.
    pub failure: Option<ResolveError>,
}

impl WalkerView {
    /// The state in which a walk over `pending` begins.
    pub open spec fn start(pending: Seq<PendingItemView>) -> WalkerView {
        WalkerView { pending, resolved: Seq::empty(), failure: None }
    }

    /// What the walker asks for in this state: another snapshot as long as
    /// something is pending and nothing has failed.
    pub open spec fn action(self) -> WalkAction {
        if self.failure is None && self.pending.len() > 0 {
            WalkAction::Fetch
        } else {
            WalkAction::Stop
        }
    }

    /// The state after a look at `snapshot`.
    pub open spec fn visit(self, snapshot: SnapshotView) -> WalkerView {
        if self.failure is Some {
            self
        } else {
            WalkerView {
                pending: unchanged_at(self.pending, snapshot),
                resolved: self.resolved + changed_at(self.pending, snapshot),
                failure: None,
            }
        }
    }

    /// The state once history has run out: what is still pending has been
    /// unchanged since the beginning and is resolved with its candidate.
    pub open spec fn exhaust(self) -> WalkerView {
        if self.failure is Some {
            self
        } else {
            WalkerView {
                pending: Seq::empty(),
                resolved: self.resolved + drained(self.pending),
                failure: None,
            }
        }
    }

    /// The state after a failure: nothing is kept, not even what had been
    /// resolved. The first failure stays.
    pub open spec fn fail(self, error: ResolveError) -> WalkerView {
        if self.failure is Some {
            self
        } else {
            WalkerView { pending: Seq::empty(), resolved: Seq::empty(), failure: Some(error) }
        }
    }

    /// The state after `event`.
    pub open spec fn step(self, event: WalkEventView) -> WalkerView {
        match event {
            WalkEventView::Snapshot(snapshot) => self.visit(snapshot),
            WalkEventView::Exhausted => self.exhaust(),
            WalkEventView::Failed(error) => self.fail(error),
        }
    }

    /// The state after a look at each snapshot of `history` in turn.
    pub open spec fn visit_all(self, history: Seq<SnapshotView>) -> WalkerView
        decreases history.len(),
    {
        if history.len() == 0 {
            self
        } else {
            self.visit(history[0]).visit_all(history.drop_first())
        }
    }

    /// What the walk has to report if it ends in this state: the failure,
    /// or else everything resolved, with what is still pending taken as
    /// unchanged since the oldest snapshot seen.
    pub open spec fn outcome(self) -> Result<Seq<ResolvedEntryView>, ResolveError> {
        match self.failure {
            Some(error) => Err(error),
            None => Ok(self.resolved + drained(self.pending)),
        }
    }
}

/// A walker that is shown the snapshots of a history one by one, newest
/// first, reports what the walk through that history emits.
pub proof fn lemma_steps_make_the_walk(state: WalkerView, history: Seq<SnapshotView>)
    requires
        state.failure is None,
    ensures
        state.visit_all(history).outcome() == Ok::<Seq<ResolvedEntryView>, ResolveError>(
            state.resolved + walk(state.pending, history),
        ),
    decreases history.len(),
{
    if history.len() == 0 {
    } else {
        let next = state.visit(history[0]);
        lemma_steps_make_the_walk(next, history.drop_first());
        assert(next.resolved + walk(next.pending, history.drop_first()) =~= state.resolved + walk(
            state.pending,
            history,
        ));
    }
}

/// Stopping early loses nothing: once nothing is pending, looking at further
/// snapshots changes nothing of what the walk reports.
pub proof fn lemma_stopping_early_loses_nothing(state: WalkerView, history: Seq<SnapshotView>)
    requires
        state.action() == WalkAction::Stop,
    ensures
        state.visit_all(history).outcome() == state.outcome(),
    decreases history.len(),
{
    if state.failure is Some {
        if history.len() > 0 {
            lemma_stopping_early_loses_nothing(state, history.drop_first());
        }
    } else {
        assert(state.pending =~= Seq::empty());
        lemma_steps_make_the_walk(state, history);
        lemma_walk_of_nothing(history);
        assert(state.resolved + walk(state.pending, history) =~= state.resolved + drained(
            state.pending,
        ));
    }
}

/// The walk through history, held between two snapshots.
#[derive(Debug, PartialEq, Eq)]
pub struct HistoryWalker {
    pending: PendingSet,
    resolved: Vec<ResolvedEntry>,
    failure: Option<ResolveError>,
}

impl View for HistoryWalker {
    type V = WalkerView;

    closed spec fn view(&self) -> WalkerView {
        WalkerView {
            pending: self.pending@,
            resolved: self.resolved.deep_view(),
            failure: self.failure,
        }
    }
}

/// What a walk through a history that was at hand as a whole has done.
#[derive(Debug, PartialEq, Eq)]
pub struct WalkReport {
    /// The resolved entries, in the order in which the walk emitted them.
    pub resolved: Vec<ResolvedEntry>,
    /// How many snapshots the walk looked at.
    pub snapshots_visited: usize,
    /// How many times the walk compared a pending item with a snapshot.
    pub comparisons: u128,
}

impl HistoryWalker {
    /// A walker at the start of a walk over `pending`.
    pub fn new(pending: PendingSet) -> (walker: HistoryWalker)
        ensures
            walker@ == WalkerView::start(pending@),
    {
        let walker = HistoryWalker { pending, resolved: Vec::new(), failure: None };
        assert(walker.resolved.deep_view() =~= Seq::<ResolvedEntryView>::empty());
        walker
    }

    /// Whether the walker wants another snapshot.
    pub fn action(&self) -> (action: WalkAction)
        ensures
            action == self@.action(),
    {
        if self.failure.is_none() && !self.pending.is_empty() {
            WalkAction::Fetch
        } else {
            WalkAction::Stop
        }
    }

    /// The entries that are still pending: the paths that the next snapshot
    /// has to be asked for.
    pub fn pending(&self) -> (pending: &PendingSet)
        ensures
            pending@ == self@.pending,
    {
        &self.pending
    }

    /// Looks at `snapshot`, which must be the predecessor of the snapshot
    /// looked at before: the walker cannot tell.
    pub fn visit(&mut self, snapshot: &Snapshot)
        ensures
            final(self)@ == old(self)@.visit(snapshot@),
            distinct_paths(old(self)@.pending) ==> distinct_paths(final(self)@.pending),
    {
        if self.failure.is_none() {
            let ghost before = self.resolved.deep_view();
            let mut changed = self.pending.partition(snapshot);
            let ghost left = changed.deep_view();
            self.resolved.append(&mut changed);
            assert(self.resolved.deep_view() =~= before + left);
        }
    }

    /// Takes what the caller reports and says what to do next.
    pub fn step(&mut self, event: WalkEvent) -> (action: WalkAction)
        ensures
            final(self)@ == old(self)@.step(event@),
            action == final(self)@.action(),
            distinct_paths(old(self)@.pending) ==> distinct_paths(final(self)@.pending),
    {
        match event {
            WalkEvent::Snapshot(snapshot) => {
                self.visit(&snapshot);
            },
            WalkEvent::Exhausted => {
                self.exhaust();
            },
            WalkEvent::Failed(error) => {
                if self.failure.is_none() {
                    self.pending = PendingSet::new();
                    self.resolved = Vec::new();
                    self.failure = Some(error);
                    assert(self.resolved.deep_view() =~= Seq::<ResolvedEntryView>::empty());
                }
            },
        }
        self.action()
    }

    /// Resolves what is still pending with the candidates it holds.
    fn exhaust(&mut self)
        ensures
            final(self)@ == old(self)@.exhaust(),
    {
        if self.failure.is_none() {
            let ghost before = self.resolved.deep_view();
            let mut rest = self.pending.drain();
            let ghost last = rest.deep_view();
            self.resolved.append(&mut rest);
            assert(self.resolved.deep_view() =~= before + last);
        }
    }

    /// Ends the walk and hands out its result: every entry, resolved, or
    /// the failure and no entry at all.
    pub fn finish(self) -> (outcome: Result<Vec<ResolvedEntry>, ResolveError>)
        ensures
            match outcome {
                Ok(resolved) => self@.outcome() == Ok::<Seq<ResolvedEntryView>, ResolveError>(
                    resolved.deep_view(),
                ),
                Err(error) => self@.outcome() == Err::<Seq<ResolvedEntryView>, ResolveError>(error),
            },
    {
        match self.failure {
            Some(error) => Err(error),
            None => Ok(self.complete()),
        }
    }

    /// Ends a walk that has not failed.
    fn complete(self) -> (resolved: Vec<ResolvedEntry>)
        requires
            self@.failure is None,
        ensures
            resolved.deep_view() == self@.resolved + drained(self@.pending),
    {
        let mut walker = self;
        walker.exhaust();
        walker.resolved
    }

    /// Walks through `history`, newest snapshot first, until every item of
    /// `pending` is resolved or history has run out.
    ///
    /// The walk looks at no snapshot beyond the one that resolves the last
    /// pending item; what it reports is what a walk to the root would.
    pub fn run(pending: PendingSet, history: &Vec<Snapshot>) -> (report: WalkReport)
        ensures
            report.resolved.deep_view() == walk(pending@, history.deep_view()),
            report.resolved.deep_view().to_multiset() == settled(
                pending@,
                history.deep_view(),
            ).to_multiset(),
            report.resolved.len() == pending@.len(),
            report.snapshots_visited == depth(pending@, history.deep_view()),
            report.snapshots_visited <= history.len(),
            report.comparisons == lookups(pending@, history.deep_view()),
            report.comparisons <= pending@.len() * report.snapshots_visited,
    {
        let ghost start = pending@;
        let ghost all = history.deep_view();
        let count = pending.len();
        let mut walker = HistoryWalker::new(pending);
        let mut visited: usize = 0;
        let mut comparisons: u128 = 0;
        proof {
            lemma_walk_cost_is_bounded(start, all);
            lemma_walk_settles_every_item(start, all);
            assert(all.skip(0) =~= all);
        }
        while visited < history.len() && !walker.pending.is_empty()
            invariant
                all == history.deep_view(),
                visited <= history.len(),
                walker@.failure is None,
                walker@.resolved + walk(walker@.pending, all.skip(visited as int)) == walk(
                    start,
                    all,
                ),
                visited + depth(walker@.pending, all.skip(visited as int)) == depth(start, all),
                comparisons + lookups(walker@.pending, all.skip(visited as int)) == lookups(
                    start,
                    all,
                ),
                lookups(start, all) <= start.len() * all.len(),
                start.len() == count,
            decreases history.len() - visited,
        {
            proof {
                assert(all.skip(visited as int).drop_first() =~= all.skip(visited as int + 1));
                let p = start.len() as int;
                let n = all.len() as int;
                assert(p * n <= 0xFFFF_FFFF_FFFF_FFFF * 0xFFFF_FFFF_FFFF_FFFF) by (nonlinear_arith)
                    requires
                        0 <= p <= 0xFFFF_FFFF_FFFF_FFFF,
                        0 <= n <= 0xFFFF_FFFF_FFFF_FFFF,
                ;
            }
            comparisons = comparisons + walker.pending.len() as u128;
            walker.visit(&history[visited]);
            visited = visited + 1;
        }
        proof {
            if walker@.pending.len() == 0 {
                assert(walker@.pending =~= Seq::empty());
                lemma_walk_of_nothing(all.skip(visited as int));
            }
        }
        let resolved = walker.complete();
        WalkReport { resolved, snapshots_visited: visited, comparisons }
    }
}

} // verus!
