//! The driver of a resolution: it sets entries that history does not know
//! aside, walks history for the others, and hands out the result.

use vstd::prelude::*;
use vstd::seq_lib::lemma_multiset_commutative;
use crate::error::ResolveError;
use crate::model::{Entry, EntryView, PendingItemView, ResolvedEntry, ResolvedEntryView};
use crate::pending::{distinct_entry_paths, distinct_paths, holds, seeded, PendingSet};
use crate::snapshot::{Snapshot, SnapshotView};
use crate::walk::{
    depth, lemma_boundary_is_found, lemma_unchanged_since_root, lemma_walk_settles_every_item,
    lookups, settled, walk,
};
use crate::walker::{
    lemma_steps_make_the_walk, HistoryWalker, WalkAction, WalkEvent, WalkerView,
};

verus! {

/// The entries that `tree` knows: those whose path it holds, whatever the
/// content there.
pub open spec fn in_tree(entries: Seq<EntryView>, tree: Map<Seq<char>, Seq<u8>>) -> Seq<
    EntryView,
> {
    entries.filter(|entry: EntryView| tree.contains_key(entry.path))
}

/// The entries whose path `tree` does not hold, each resolved by its
/// fallback.
pub open spec fn untracked(entries: Seq<EntryView>, tree: Map<Seq<char>, Seq<u8>>) -> Seq<
    ResolvedEntryView,
> {
    entries.filter(|entry: EntryView| !tree.contains_key(entry.path)).map_values(
        |entry: EntryView| entry.resolved_by_fallback(),
    )
}

/// The pending items with which the walk for `entries` begins: the known
/// entries, each with the reference's time as its candidate.
pub open spec fn staged(entries: Seq<EntryView>, reference: SnapshotView) -> Seq<
    PendingItemView,
> {
    seeded(in_tree(entries, reference.tree), reference.timestamp)
}

/// What the resolution of `entries` against `history` reports: first the
/// entries that the reference does not know, then what the walk emits.
pub open spec fn resolution(entries: Seq<EntryView>, history: Seq<SnapshotView>) -> Seq<
    ResolvedEntryView,
>
    recommends
        history.len() > 0,
{
    untracked(entries, history[0].tree) + walk(staged(entries, history[0]), history)
}

/// One more entry is staged or set aside, as the reference knows its path
/// or does not.
proof fn lemma_stage_push(entries: Seq<EntryView>, entry: EntryView, reference: SnapshotView)
    ensures
        reference.tree.contains_key(entry.path) ==> staged(entries.push(entry), reference)
            == staged(entries, reference).push(entry.pending(reference.timestamp)) && untracked(
            entries.push(entry),
            reference.tree,
        ) == untracked(entries, reference.tree),
        !reference.tree.contains_key(entry.path) ==> staged(entries.push(entry), reference)
            == staged(entries, reference) && untracked(entries.push(entry), reference.tree)
            == untracked(entries, reference.tree).push(entry.resolved_by_fallback()),
{
    let known = |entry: EntryView| reference.tree.contains_key(entry.path);
    let unknown = |entry: EntryView| !reference.tree.contains_key(entry.path);
    entries.lemma_filter_push(entry, known);
    entries.lemma_filter_push(entry, unknown);
}

/// New content: an entry whose path the reference does not hold is
/// resolved by its fallback, and is not among the items that the walk
/// begins with, so that the walk spends nothing on it.
pub proof fn lemma_untracked_entry_skips_the_walk(
    entries: Seq<EntryView>,
    reference: SnapshotView,
    index: int,
)
    requires
        0 <= index < entries.len(),
        !reference.tree.contains_key(entries[index].path),
    ensures
        untracked(entries, reference.tree).contains(entries[index].resolved_by_fallback()),
        forall|k: int|
            0 <= k < staged(entries, reference).len() ==> (#[trigger] staged(
                entries,
                reference,
            )[k]).path != entries[index].path,
        staged(entries, reference).len() < entries.len(),
{
    let unknown = |entry: EntryView| !reference.tree.contains_key(entry.path);
    let aside = entries.filter(unknown);
    entries.lemma_filter_contains(unknown, index);
    let at = choose|at: int| 0 <= at < aside.len() && aside[at] == entries[index];
    assert(untracked(entries, reference.tree)[at] == entries[index].resolved_by_fallback());
    lemma_stage_counts(entries, reference);
}

/// Every entry is either staged or set aside.
pub proof fn lemma_stage_counts(entries: Seq<EntryView>, reference: SnapshotView)
    ensures
        staged(entries, reference).len() + untracked(entries, reference.tree).len()
            == entries.len(),
    decreases entries.len(),
{
    if entries.len() > 0 {
        let shorter = entries.drop_last();
        assert(entries =~= shorter.push(entries.last()));
        lemma_stage_counts(shorter, reference);
        lemma_stage_push(shorter, entries.last(), reference);
    }
}

/// Entries without duplicate paths stage a pending set without duplicate
/// paths.
pub proof fn lemma_stage_keeps_paths_distinct(entries: Seq<EntryView>, reference: SnapshotView)
    requires
        distinct_entry_paths(entries),
    ensures
        distinct_paths(staged(entries, reference)),
        distinct_entry_paths(in_tree(entries, reference.tree)),
        forall|k: int|
            0 <= k < in_tree(entries, reference.tree).len() ==> entries.contains(
                #[trigger] in_tree(entries, reference.tree)[k],
            ),
    decreases entries.len(),
{
    if entries.len() > 0 {
        let shorter = entries.drop_last();
        let last = entries.last();
        assert(entries =~= shorter.push(last));
        lemma_stage_keeps_paths_distinct(shorter, reference);
        shorter.lemma_filter_push(last, |entry: EntryView| reference.tree.contains_key(entry.path));
    }
}

/// Every staged item is settled by the resolution: it is reported with the
/// time at which history last saw it change.
pub proof fn lemma_resolution_settles_staged(
    entries: Seq<EntryView>,
    history: Seq<SnapshotView>,
    at: int,
)
    requires
        history.len() > 0,
        0 <= at < staged(entries, history[0]).len(),
    ensures
        resolution(entries, history).contains(staged(entries, history[0])[at].settled_by(history)),
{
    broadcast use vstd::seq_lib::group_to_multiset_ensures;

    let begun = staged(entries, history[0]);
    let aside = untracked(entries, history[0].tree);
    let walked = walk(begun, history);
    let target = begun[at].settled_by(history);
    lemma_walk_settles_every_item(begun, history);
    assert(settled(begun, history)[at] == target);
    assert(walked.to_multiset().count(target) > 0);
    let k = choose|k: int| 0 <= k < walked.len() && walked[k] == target;
    assert(resolution(entries, history)[aside.len() + k] == target);
}

/// Every entry is reported once: the resolution is as long as the list of
/// entries.
pub proof fn lemma_resolution_reports_every_entry(
    entries: Seq<EntryView>,
    history: Seq<SnapshotView>,
)
    requires
        history.len() > 0,
    ensures
        resolution(entries, history).len() == entries.len(),
{
    lemma_stage_counts(entries, history[0]);
    lemma_walk_settles_every_item(staged(entries, history[0]), history);
}

/// Where an entry's path and content stand in the tree of each of the
/// `boundary` newest snapshots and not in the next older one, the entry is
/// reported with the time of the oldest of those that hold it.
pub proof fn lemma_resolution_finds_boundary(
    entries: Seq<EntryView>,
    history: Seq<SnapshotView>,
    index: int,
    boundary: int,
)
    requires
        0 <= index < entries.len(),
        1 <= boundary < history.len(),
        forall|j: int|
            0 <= j < boundary ==> holds(
                (#[trigger] history[j]).tree,
                entries[index].path,
                entries[index].content_id,
            ),
        !holds(history[boundary].tree, entries[index].path, entries[index].content_id),
    ensures
        resolution(entries, history).contains(
            ResolvedEntryView {
                path: entries[index].path,
                content_id: entries[index].content_id,
                last_modified_timestamp: history[boundary - 1].timestamp,
            },
        ),
{
    let reference = history[0];
    let at = lemma_entry_is_staged(entries, reference, index);
    let item = staged(entries, reference)[at];
    lemma_boundary_is_found(item, history, boundary);
    lemma_resolution_settles_staged(entries, history, at);
}

/// An entry whose path and content stand in the tree of every snapshot is
/// reported with the time of the root.
pub proof fn lemma_resolution_of_unchanged_since_root(
    entries: Seq<EntryView>,
    history: Seq<SnapshotView>,
    index: int,
)
    requires
        0 <= index < entries.len(),
        history.len() >= 1,
        forall|j: int|
            0 <= j < history.len() ==> holds(
                (#[trigger] history[j]).tree,
                entries[index].path,
                entries[index].content_id,
            ),
    ensures
        resolution(entries, history).contains(
            ResolvedEntryView {
                path: entries[index].path,
                content_id: entries[index].content_id,
                last_modified_timestamp: history.last().timestamp,
            },
        ),
{
    let reference = history[0];
    let at = lemma_entry_is_staged(entries, reference, index);
    let item = staged(entries, reference)[at];
    lemma_unchanged_since_root(item, history);
    lemma_resolution_settles_staged(entries, history, at);
}

/// An entry whose path the reference does not hold is reported with its
/// fallback.
pub proof fn lemma_resolution_of_untracked(
    entries: Seq<EntryView>,
    history: Seq<SnapshotView>,
    index: int,
)
    requires
        0 <= index < entries.len(),
        history.len() >= 1,
        !history[0].tree.contains_key(entries[index].path),
    ensures
        resolution(entries, history).contains(entries[index].resolved_by_fallback()),
{
    let aside = untracked(entries, history[0].tree);
    let target = entries[index].resolved_by_fallback();
    lemma_untracked_entry_skips_the_walk(entries, history[0], index);
    let k = choose|k: int| 0 <= k < aside.len() && aside[k] == target;
    assert(resolution(entries, history)[k] == target);
}

/// An entry whose path the reference holds is staged, with the reference's
/// time as its candidate; the place at which it is staged is returned.
pub proof fn lemma_entry_is_staged(
    entries: Seq<EntryView>,
    reference: SnapshotView,
    index: int,
) -> (at: int)
    requires
        0 <= index < entries.len(),
        reference.tree.contains_key(entries[index].path),
    ensures
        0 <= at < staged(entries, reference).len(),
        staged(entries, reference)[at] == entries[index].pending(reference.timestamp),
{
    let known = |entry: EntryView| reference.tree.contains_key(entry.path);
    entries.lemma_filter_contains(known, index);
    let kept = entries.filter(known);
    let at = choose|at: int| 0 <= at < kept.len() && kept[at] == entries[index];
    at
}

/// Sets the entries that `reference` does not know aside, resolved by
/// their fallback, and seeds a pending set with the others.
///
/// Entries of which no two share a path give a well-formed pending set.
pub fn stage(entries: Vec<Entry>, reference: &Snapshot) -> (parts: (
    Vec<ResolvedEntry>,
    PendingSet,
))
    ensures
        parts.0.deep_view() == untracked(entries.deep_view(), reference@.tree),
        parts.1@ == staged(entries.deep_view(), reference@),
        parts.0.len() + parts.1@.len() == entries.len(),
        distinct_entry_paths(entries.deep_view()) ==> parts.1.wf(),
{
    let ghost all = entries.deep_view();
    let mut aside: Vec<ResolvedEntry> = Vec::new();
    let mut known: Vec<Entry> = Vec::new();
    for entry in it: entries
        invariant
            it.seq().len() == all.len(),
            forall|j: int| 0 <= j < all.len() ==> (#[trigger] it.seq()[j])@ == all[j],
            aside.deep_view() == untracked(all.take(it.index()), reference@.tree),
            known.deep_view() == in_tree(all.take(it.index()), reference@.tree),
    {
        proof {
            let seen = all.take(it.index());
            assert(all.take(it.index() + 1) =~= seen.push(entry@));
            lemma_stage_push(seen, entry@, reference@);
            seen.lemma_filter_push(
                entry@,
                |entry: EntryView| reference@.tree.contains_key(entry.path),
            );
        }
        if reference.tree.lookup(&entry.path).is_some() {
            known.push(entry);
        } else {
            let resolved = entry.into_resolved_by_fallback();
            aside.push(resolved);
        }
    }
    proof {
        assert(all.take(all.len() as int) =~= all);
        lemma_stage_counts(all, reference@);
        if distinct_entry_paths(all) {
            lemma_stage_keeps_paths_distinct(all, reference@);
        }
    }
    let pending = PendingSet::seed(known, reference.timestamp);
    (aside, pending)
}

/// A resolution in progress, held between two snapshots.
#[derive(Debug, PartialEq, Eq)]
pub struct Resolver {
    aside: Vec<ResolvedEntry>,
    walker: HistoryWalker,
}

/// The state of a resolution in contracts.
pub struct ResolverView {
    /// The entries that the reference does not know, resolved by fallback.
    pub untracked: Seq<ResolvedEntryView>,
    /// The walk for the other entries.
    pub walk: WalkerView,
}

impl ResolverView {
    /// What the resolution reports if it ends in this state: the failure
    /// of the walk and nothing else, or the entries set aside followed by
    /// those that the walk resolved.
    pub open spec fn outcome(self) -> Result<Seq<ResolvedEntryView>, ResolveError> {
        match self.walk.outcome() {
            Ok(resolved) => Ok(self.untracked + resolved),
            Err(error) => Err(error),
        }
    }
}

/// A resolver that is begun on the reference and then shown the snapshots
/// of the history one by one, the reference first, reports the resolution
/// of the entries against that history.
pub proof fn lemma_steps_make_the_resolution(entries: Seq<EntryView>, history: Seq<SnapshotView>)
    requires
        history.len() > 0,
    ensures
        (ResolverView {
            untracked: untracked(entries, history[0].tree),
            walk: WalkerView::start(staged(entries, history[0])).visit_all(history),
        }).outcome() == Ok::<Seq<ResolvedEntryView>, ResolveError>(
            resolution(entries, history),
        ),
{
    let start = WalkerView::start(staged(entries, history[0]));
    lemma_steps_make_the_walk(start, history);
    assert(start.resolved + walk(start.pending, history) =~= walk(start.pending, history));
}

impl View for Resolver {
    type V = ResolverView;

    closed spec fn view(&self) -> ResolverView {
        ResolverView { untracked: self.aside.deep_view(), walk: self.walker@ }
    }
}

/// What a resolution against a history that was at hand as a whole gives.
#[derive(Debug, PartialEq, Eq)]
pub struct Resolution {
    /// Every entry, resolved: first those that the reference does not know,
    /// then the others in the order in which the walk settled them.
    pub entries: Vec<ResolvedEntry>,
    /// How many snapshots the walk looked at.
    pub snapshots_visited: usize,
    /// How many times the walk compared a pending item with a snapshot.
    pub comparisons: u128,
}

impl Resolver {
    /// Begins the resolution of `entries` against the snapshot that the
    /// reference names.
    ///
    /// An entry whose path the reference does not hold is new: it is
    /// resolved at once by its fallback and never becomes pending. Every
    /// other entry becomes pending with the reference's time as candidate.
    pub fn begin(entries: Vec<Entry>, reference: &Snapshot) -> (resolver: Resolver)
        ensures
            resolver@.untracked == untracked(entries.deep_view(), reference@.tree),
            resolver@.walk == WalkerView::start(staged(entries.deep_view(), reference@)),
            distinct_entry_paths(entries.deep_view()) ==> distinct_paths(resolver@.walk.pending),
    {
        let (aside, pending) = stage(entries, reference);
        Resolver { aside, walker: HistoryWalker::new(pending) }
    }

    /// Whether the resolution wants another snapshot.
    pub fn action(&self) -> (action: WalkAction)
        ensures
            action == self@.walk.action(),
    {
        self.walker.action()
    }

    /// The entries that are still pending: the paths that the next snapshot
    /// has to be asked for.
    pub fn pending(&self) -> (pending: &PendingSet)
        ensures
            pending@ == self@.walk.pending,
    {
        self.walker.pending()
    }

    /// Takes what the caller reports of the next older snapshot, beginning
    /// with the reference itself, and says what to do next.
    pub fn step(&mut self, event: WalkEvent) -> (action: WalkAction)
        ensures
            final(self)@.walk == old(self)@.walk.step(event@),
            final(self)@.untracked == old(self)@.untracked,
            action == final(self)@.walk.action(),
            distinct_paths(old(self)@.walk.pending) ==> distinct_paths(final(self)@.walk.pending),
    {
        self.walker.step(event)
    }

    /// Ends the resolution and hands out every entry, resolved, or, after
    /// a failure, the failure and no entry at all.
    pub fn finish(self) -> (outcome: Result<Vec<ResolvedEntry>, ResolveError>)
        ensures
            match outcome {
                Ok(resolved) => self@.outcome() == Ok::<Seq<ResolvedEntryView>, ResolveError>(
                    resolved.deep_view(),
                ),
                Err(error) => self@.outcome() == Err::<Seq<ResolvedEntryView>, ResolveError>(error),
            },
    {
        let mut entries = self.aside;
        let ghost aside = entries.deep_view();
        match self.walker.finish() {
            Ok(resolved) => {
                let mut resolved = resolved;
                let ghost walked = resolved.deep_view();
                entries.append(&mut resolved);
                assert(entries.deep_view() =~= aside + walked);
                Ok(entries)
            },
            Err(error) => Err(error),
        }
    }
}

/// Resolves `entries` against `history`, which holds the reference first
/// and then each predecessor in turn, down to the root.
///
/// Without a reference there is nothing to resolve against, and the
/// resolution fails. Otherwise every entry is reported once: an entry that
/// the reference does not know with its fallback, every other with the time
/// of the oldest snapshot in the newest run of snapshots that hold its
/// content. The walk stops at the snapshot that settles the last entry.
pub fn resolve(entries: Vec<Entry>, history: &Vec<Snapshot>) -> (outcome: Result<
    Resolution,
    ResolveError,
>)
    ensures
        history.len() == 0 ==> outcome == Err::<Resolution, ResolveError>(
            ResolveError::ReferenceNotFound,
        ),
        history.len() > 0 ==> outcome is Ok,
        outcome matches Ok(done) ==> {
            let all = history.deep_view();
            let begun = staged(entries.deep_view(), all[0]);
            &&& done.entries.deep_view() == resolution(entries.deep_view(), all)
            &&& done.entries.deep_view().to_multiset() == untracked(
                entries.deep_view(),
                all[0].tree,
            ).to_multiset().add(settled(begun, all).to_multiset())
            &&& done.entries.len() == entries.len()
            &&& done.snapshots_visited == depth(begun, all)
            &&& done.snapshots_visited <= history.len()
            &&& done.comparisons == lookups(begun, all)
            &&& done.comparisons <= begun.len() * done.snapshots_visited
        },
{
    if history.len() == 0 {
        return Err(ResolveError::ReferenceNotFound);
    }
    let ghost all = history.deep_view();
    let (aside, pending) = stage(entries, &history[0]);
    assert(all[0] == history@[0]@);
    let report = HistoryWalker::run(pending, history);
    let mut found = aside;
    let mut walked = report.resolved;
    let ghost first = found.deep_view();
    let ghost second = walked.deep_view();
    found.append(&mut walked);
    proof {
        assert(found.deep_view() =~= first + second);
        lemma_multiset_commutative(first, second);
    }
    Ok(
        Resolution {
            entries: found,
            snapshots_visited: report.snapshots_visited,
            comparisons: report.comparisons,
        },
    )
}

} // verus!
