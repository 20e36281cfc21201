//! The working set of entries whose last change is still unknown.

use vstd::prelude::*;
use crate::model::{
    Entry, EntryView, PendingItem, PendingItemView, ResolvedEntry, ResolvedEntryView, Timestamp,
};
use crate::snapshot::{Snapshot, SnapshotView};

verus! {

/// Whether `tree` has, at `path`, exactly the content `content_id`.
pub open spec fn holds(
    tree: Map<Seq<char>, Seq<u8>>,
    path: Seq<char>,
    content_id: Seq<u8>,
) -> bool {
    tree.contains_key(path) && tree[path] == content_id
}

impl PendingItemView {
    /// Whether the item's content differs from what `snapshot` has at the
    /// item's path, or the snapshot has no such path.
    pub open spec fn changed_in(self, snapshot: SnapshotView) -> bool {
        !holds(snapshot.tree, self.path, self.content_id)
    }
}

/// The items of `pending` that `snapshot` shows as changed, each resolved
/// with the candidate it held before the snapshot was looked at.
pub open spec fn changed_at(pending: Seq<PendingItemView>, snapshot: SnapshotView) -> Seq<
    ResolvedEntryView,
> {
    pending.filter(|item: PendingItemView| item.changed_in(snapshot)).map_values(
        |item: PendingItemView| item.resolved(),
    )
}

/// The items of `pending` that `snapshot` holds unchanged, each with the
/// snapshot's time as its new candidate.
pub open spec fn unchanged_at(pending: Seq<PendingItemView>, snapshot: SnapshotView) -> Seq<
    PendingItemView,
> {
    pending.filter(|item: PendingItemView| !item.changed_in(snapshot)).map_values(
        |item: PendingItemView| item.with_candidate(snapshot.timestamp),
    )
}

/// The entries as they enter the pending set.
pub open spec fn seeded(entries: Seq<EntryView>, initial: Timestamp) -> Seq<PendingItemView> {
    entries.map_values(|entry: EntryView| entry.pending(initial))
}

/// The items resolved as they stand, each with the candidate it holds.
pub open spec fn drained(pending: Seq<PendingItemView>) -> Seq<ResolvedEntryView> {
    pending.map_values(|item: PendingItemView| item.resolved())
}

/// Whether no path occurs twice among the items.
pub open spec fn distinct_paths(pending: Seq<PendingItemView>) -> bool {
    forall|i: int, j: int|
        0 <= i < j < pending.len() ==> (#[trigger] pending[i]).path != (#[trigger] pending[j]).path
}

/// Whether no path occurs twice among the entries.
pub open spec fn distinct_entry_paths(entries: Seq<EntryView>) -> bool {
    forall|i: int, j: int|
        0 <= i < j < entries.len() ==> (#[trigger] entries[i]).path != (#[trigger] entries[j]).path
}

/// Whether some item of `pending` lies at `path`.
pub open spec fn has_path(pending: Seq<PendingItemView>, path: Seq<char>) -> bool {
    exists|i: int| 0 <= i < pending.len() && (#[trigger] pending[i]).path == path
}

/// One more item at the end of `pending` lands in exactly one of the two
/// parts, at its end.
pub proof fn lemma_partition_push(
    pending: Seq<PendingItemView>,
    item: PendingItemView,
    snapshot: SnapshotView,
)
    ensures
        item.changed_in(snapshot) ==> changed_at(pending.push(item), snapshot) == changed_at(
            pending,
            snapshot,
        ).push(item.resolved()) && unchanged_at(pending.push(item), snapshot) == unchanged_at(
            pending,
            snapshot,
        ),
        !item.changed_in(snapshot) ==> changed_at(pending.push(item), snapshot) == changed_at(
            pending,
            snapshot,
        ) && unchanged_at(pending.push(item), snapshot) == unchanged_at(pending, snapshot).push(
            item.with_candidate(snapshot.timestamp),
        ),
{
    let is_changed = |item: PendingItemView| item.changed_in(snapshot);
    let is_unchanged = |item: PendingItemView| !item.changed_in(snapshot);
    pending.lemma_filter_push(item, is_changed);
    pending.lemma_filter_push(item, is_unchanged);
}

/// Seeding keeps the paths: the seeded items are free of duplicate paths
/// exactly if the entries are.
pub proof fn lemma_seeded_paths(entries: Seq<EntryView>, initial: Timestamp)
    ensures
        seeded(entries, initial).len() == entries.len(),
        forall|i: int|
            0 <= i < entries.len() ==> (#[trigger] seeded(entries, initial)[i]).path
                == entries[i].path,
        distinct_paths(seeded(entries, initial)) == distinct_entry_paths(entries),
{
    let items = seeded(entries, initial);
    if distinct_paths(items) {
        assert forall|i: int, j: int| 0 <= i < j < entries.len() implies (
        #[trigger] entries[i]).path != (#[trigger] entries[j]).path by {
            assert(items[i].path != items[j].path);
        }
    }
}

/// Neither part holds anything if nothing was pending.
pub proof fn lemma_partition_empty(snapshot: SnapshotView)
    ensures
        changed_at(Seq::empty(), snapshot) == Seq::<ResolvedEntryView>::empty(),
        unchanged_at(Seq::empty(), snapshot) == Seq::<PendingItemView>::empty(),
{
}

/// Every pending item lands in one part or the other: the two parts together
/// are as long as the set was.
pub proof fn lemma_partition_len(pending: Seq<PendingItemView>, snapshot: SnapshotView)
    ensures
        changed_at(pending, snapshot).len() + unchanged_at(pending, snapshot).len()
            == pending.len(),
    decreases pending.len(),
{
    if pending.len() > 0 {
        let shorter = pending.drop_last();
        assert(pending =~= shorter.push(pending.last()));
        lemma_partition_len(shorter, snapshot);
        lemma_partition_push(shorter, pending.last(), snapshot);
    }
}

/// Whether `resolved` is some item of `pending` that `snapshot` shows as
/// changed, resolved with the candidate it held.
pub open spec fn left_as(
    pending: Seq<PendingItemView>,
    snapshot: SnapshotView,
    resolved: ResolvedEntryView,
) -> bool {
    exists|i: int|
        0 <= i < pending.len() && (#[trigger] pending[i]).changed_in(snapshot)
            && pending[i].resolved() == resolved
}

/// Whether `item` is some item of `pending` that `snapshot` holds unchanged,
/// with the snapshot's time as its candidate.
pub open spec fn stayed_as(
    pending: Seq<PendingItemView>,
    snapshot: SnapshotView,
    item: PendingItemView,
) -> bool {
    exists|i: int|
        0 <= i < pending.len() && !(#[trigger] pending[i]).changed_in(snapshot)
            && pending[i].with_candidate(snapshot.timestamp) == item
}

/// Each changed item is a pending item that the snapshot shows as changed,
/// resolved with its own candidate; each unchanged item is a pending item
/// that the snapshot holds, under its own path and content.
pub proof fn lemma_partition_origin(pending: Seq<PendingItemView>, snapshot: SnapshotView)
    ensures
        forall|k: int|
            0 <= k < changed_at(pending, snapshot).len() ==> left_as(
                pending,
                snapshot,
                #[trigger] changed_at(pending, snapshot)[k],
            ),
        forall|k: int|
            0 <= k < unchanged_at(pending, snapshot).len() ==> stayed_as(
                pending,
                snapshot,
                #[trigger] unchanged_at(pending, snapshot)[k],
            ),
    decreases pending.len(),
{
    if pending.len() > 0 {
        let shorter = pending.drop_last();
        let item = pending.last();
        assert(pending =~= shorter.push(item));
        lemma_partition_origin(shorter, snapshot);
        lemma_partition_push(shorter, item, snapshot);
    }
}

/// A set without duplicate paths stays so through a partition: what is kept
/// has no path twice, every kept path was pending before, and no path lands
/// in both parts.
pub proof fn lemma_partition_keeps_paths_distinct(
    pending: Seq<PendingItemView>,
    snapshot: SnapshotView,
)
    requires
        distinct_paths(pending),
    ensures
        distinct_paths(unchanged_at(pending, snapshot)),
        forall|k: int|
            0 <= k < unchanged_at(pending, snapshot).len() ==> has_path(
                pending,
                (#[trigger] unchanged_at(pending, snapshot)[k]).path,
            ),
        forall|c: int, u: int|
            0 <= c < changed_at(pending, snapshot).len() && 0 <= u < unchanged_at(
                pending,
                snapshot,
            ).len() ==> (#[trigger] changed_at(pending, snapshot)[c]).path != (
            #[trigger] unchanged_at(pending, snapshot)[u]).path,
    decreases pending.len(),
{
    lemma_partition_origin(pending, snapshot);
    if pending.len() > 0 {
        let shorter = pending.drop_last();
        let item = pending.last();
        assert(pending =~= shorter.push(item));
        lemma_partition_keeps_paths_distinct(shorter, snapshot);
        lemma_partition_push(shorter, item, snapshot);
    }
}

/// The set of entries that are still unresolved.
///
/// The set is well formed when no path occurs in it twice.
#[derive(Debug, PartialEq, Eq)]
pub struct PendingSet {
    items: Vec<PendingItem>,
}

impl View for PendingSet {
    type V = Seq<PendingItemView>;

    closed spec fn view(&self) -> Seq<PendingItemView> {
        self.items.deep_view()
    }
}

impl PendingSet {
    /// Whether the set is well formed: no path is pending twice.
    pub open spec fn wf(&self) -> bool {
        distinct_paths(self@)
    }

    /// The set that holds nothing.
    pub fn new() -> (set: PendingSet)
        ensures
            set@ == Seq::<PendingItemView>::empty(),
            set.wf(),
    {
        PendingSet { items: Vec::new() }
    }

    /// Populates a set from `entries`, each with `initial` as its candidate.
    ///
    /// The set is well formed exactly if no two entries share a path.
    pub fn seed(entries: Vec<Entry>, initial: Timestamp) -> (set: PendingSet)
        ensures
            set@ == seeded(entries.deep_view(), initial),
            set.wf() == distinct_entry_paths(entries.deep_view()),
    {
        let ghost all = entries.deep_view();
        let mut items: Vec<PendingItem> = Vec::new();
        for entry in it: entries
            invariant
                it.seq().len() == all.len(),
                forall|j: int| 0 <= j < all.len() ==> (#[trigger] it.seq()[j])@ == all[j],
                items.deep_view() == seeded(all.take(it.index()), initial),
        {
            let ghost before = items.deep_view();
            let item = entry.into_pending(initial);
            items.push(item);
            assert(items.deep_view() =~= before.push(item@));
        }
        proof {
            lemma_seeded_paths(all, initial);
        }
        PendingSet { items }
    }

    /// How many entries are pending.
    pub fn len(&self) -> (n: usize)
        ensures
            n == self@.len(),
    {
        self.items.len()
    }

    /// Whether nothing is pending.
    pub fn is_empty(&self) -> (empty: bool)
        ensures
            empty == (self@.len() == 0),
    {
        self.items.len() == 0
    }

    /// The pending items, in the order in which they are held.
    pub fn items(&self) -> (items: &Vec<PendingItem>)
        ensures
            items.deep_view() == self@,
    {
        &self.items
    }

    /// Empties the set, resolving every item with the candidate it holds.
    pub fn drain(&mut self) -> (resolved: Vec<ResolvedEntry>)
        ensures
            resolved.deep_view() == drained(old(self)@),
            final(self)@ == Seq::<PendingItemView>::empty(),
            final(self).wf(),
    {
        let mut items: Vec<PendingItem> = Vec::new();
        std::mem::swap(&mut items, &mut self.items);
        let ghost before = items.deep_view();
        let mut resolved: Vec<ResolvedEntry> = Vec::new();
        for item in it: items
            invariant
                it.seq().len() == before.len(),
                forall|j: int| 0 <= j < before.len() ==> (#[trigger] it.seq()[j])@ == before[j],
                resolved.deep_view() == drained(before.take(it.index())),
        {
            let ghost done = resolved.deep_view();
            let gone = item.into_resolved();
            resolved.push(gone);
            assert(resolved.deep_view() =~= done.push(gone@));
        }
        resolved
    }

    /// Splits the set by what `snapshot` shows.
    ///
    /// An item whose path is absent from the snapshot, or lies there with
    /// other content, changed after the snapshot: it leaves the set, resolved
    /// with the candidate it held. Every other item stays, with the
    /// snapshot's time as its candidate. In a well-formed set no path both
    /// leaves and stays, and the set stays well formed.
    pub fn partition(&mut self, snapshot: &Snapshot) -> (changed: Vec<ResolvedEntry>)
        ensures
            changed.deep_view() == changed_at(old(self)@, snapshot@),
            final(self)@ == unchanged_at(old(self)@, snapshot@),
            changed.len() + final(self)@.len() == old(self)@.len(),
            old(self).wf() ==> final(self).wf(),
            old(self).wf() ==> forall|c: int, u: int|
                0 <= c < changed.len() && 0 <= u < final(self)@.len() ==> (
                #[trigger] changed.deep_view()[c]).path != (#[trigger] final(self)@[u]).path,
    {
        let mut items: Vec<PendingItem> = Vec::new();
        std::mem::swap(&mut items, &mut self.items);
        let ghost before = items.deep_view();
        let mut changed: Vec<ResolvedEntry> = Vec::new();
        for item in it: items
            invariant
                it.seq().len() == before.len(),
                forall|j: int| 0 <= j < before.len() ==> (#[trigger] it.seq()[j])@ == before[j],
                changed.deep_view() == changed_at(before.take(it.index()), snapshot@),
                self.items.deep_view() == unchanged_at(before.take(it.index()), snapshot@),
        {
            proof {
                lemma_partition_push(before.take(it.index()), item@, snapshot@);
                assert(before.take(it.index() + 1) =~= before.take(it.index()).push(item@));
            }
            let same = match snapshot.tree.lookup(&item.path) {
                Some(id) => id.same(&item.content_id),
                None => false,
            };
            if same {
                let stays = item.into_retimed(snapshot.timestamp);
                self.items.push(stays);
            } else {
                let gone = item.into_resolved();
                changed.push(gone);
            }
        }
        proof {
            assert(before.take(before.len() as int) =~= before);
            lemma_partition_len(before, snapshot@);
            if distinct_paths(before) {
                lemma_partition_keeps_paths_distinct(before, snapshot@);
            }
        }
        changed
    }
}

} // verus!
