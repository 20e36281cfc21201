//! What the walk through history computes, stated as mathematics, and the
//! laws that hold of it.
//!
//! A history is a sequence of snapshots, newest first: its first snapshot is
//! the reference, each further one is the predecessor of the one before, and
//! its last is the root.

use vstd::prelude::*;
use vstd::seq_lib::lemma_multiset_commutative;
use crate::model::{PendingItemView, ResolvedEntryView, Timestamp};
use crate::pending::{
    changed_at, distinct_paths, drained, has_path, holds, lemma_partition_empty,
    lemma_partition_keeps_paths_distinct, lemma_partition_len, lemma_partition_origin,
    lemma_partition_push, unchanged_at,
};
use crate::snapshot::SnapshotView;

verus! {

/// How many snapshots at the head of `history` hold `content_id` at `path`:
/// the length of the newest run of snapshots in which the content is what
/// it is now.
pub open spec fn unchanged_run(
    history: Seq<SnapshotView>,
    path: Seq<char>,
    content_id: Seq<u8>,
) -> nat
    decreases history.len(),
{
    if history.len() == 0 || !holds(history[0].tree, path, content_id) {
        0
    } else {
        1 + unchanged_run(history.drop_first(), path, content_id)
    }
}

/// The time at which the item's content last changed, as far as `history`
/// tells: the time of the oldest snapshot of the item's unchanged run, or
/// the candidate that the item brought along if not even the newest snapshot
/// holds its content.
pub open spec fn last_modified(item: PendingItemView, history: Seq<SnapshotView>) -> Timestamp {
    let run = unchanged_run(history, item.path, item.content_id);
    if run == 0 {
        item.candidate_timestamp
    } else {
        history[run - 1].timestamp
    }
}

impl PendingItemView {
    /// The item resolved with the time at which `history` last saw it change.
    pub open spec fn settled_by(self, history: Seq<SnapshotView>) -> ResolvedEntryView {
        ResolvedEntryView {
            path: self.path,
            content_id: self.content_id,
            last_modified_timestamp: last_modified(self, history),
        }
    }
}

/// Every pending item settled by `history`, in the order of `pending`.
pub open spec fn settled(pending: Seq<PendingItemView>, history: Seq<SnapshotView>) -> Seq<
    ResolvedEntryView,
> {
    pending.map_values(|item: PendingItemView| item.settled_by(history))
}

/// What a walk through the whole of `history` emits, in the order in which
/// it emits it: at each snapshot the items found changed there, and at the
/// end whatever never changed.
pub open spec fn walk(pending: Seq<PendingItemView>, history: Seq<SnapshotView>) -> Seq<
    ResolvedEntryView,
>
    decreases history.len(),
{
    if history.len() == 0 {
        drained(pending)
    } else {
        changed_at(pending, history[0]) + walk(
            unchanged_at(pending, history[0]),
            history.drop_first(),
        )
    }
}

/// What is still pending once the first `steps` snapshots of `history` have
/// been looked at (or all of them, if there are fewer).
pub open spec fn pending_after(
    pending: Seq<PendingItemView>,
    history: Seq<SnapshotView>,
    steps: nat,
) -> Seq<PendingItemView>
    decreases steps,
{
    if steps == 0 || history.len() == 0 {
        pending
    } else {
        pending_after(
            unchanged_at(pending, history[0]),
            history.drop_first(),
            (steps - 1) as nat,
        )
    }
}

/// What the walk resolves at the snapshot with index `step`.
pub open spec fn changed_in_step(
    pending: Seq<PendingItemView>,
    history: Seq<SnapshotView>,
    step: nat,
) -> Seq<ResolvedEntryView>
    recommends
        step < history.len(),
{
    changed_at(pending_after(pending, history, step), history[step as int])
}

/// How many snapshots the walk has to look at: it stops at the first point
/// where nothing is pending, and at the root at the latest.
pub open spec fn depth(pending: Seq<PendingItemView>, history: Seq<SnapshotView>) -> nat
    decreases history.len(),
{
    if pending.len() == 0 || history.len() == 0 {
        0
    } else {
        1 + depth(unchanged_at(pending, history[0]), history.drop_first())
    }
}

/// How many times the walk compares a pending item with a snapshot: once for
/// each item that is pending at each snapshot it looks at.
pub open spec fn lookups(pending: Seq<PendingItemView>, history: Seq<SnapshotView>) -> nat
    decreases history.len(),
{
    if pending.len() == 0 || history.len() == 0 {
        0
    } else {
        pending.len() + lookups(unchanged_at(pending, history[0]), history.drop_first())
    }
}

/// With nothing pending the walk emits nothing, however long the history.
///
/// This is why the walk may stop as soon as the pending set is empty.
pub proof fn lemma_walk_of_nothing(history: Seq<SnapshotView>)
    ensures
        walk(Seq::empty(), history) == Seq::<ResolvedEntryView>::empty(),
    decreases history.len(),
{
    if history.len() > 0 {
        lemma_partition_empty(history[0]);
        lemma_walk_of_nothing(history.drop_first());
    }
}

/// The walk looks at no more snapshots than the history has, and compares no
/// more often than once per pending item and snapshot looked at.
pub proof fn lemma_walk_cost_is_bounded(pending: Seq<PendingItemView>, history: Seq<SnapshotView>)
    ensures
        depth(pending, history) <= history.len(),
        lookups(pending, history) <= pending.len() * depth(pending, history),
        lookups(pending, history) <= pending.len() * history.len(),
    decreases history.len(),
{
    if pending.len() > 0 && history.len() > 0 {
        let kept = unchanged_at(pending, history[0]);
        let rest = history.drop_first();
        lemma_walk_cost_is_bounded(kept, rest);
        let p = pending.len() as int;
        let k = kept.len() as int;
        let d = depth(kept, rest) as int;
        let n = history.len() as int;
        assert(k * d <= p * d) by (nonlinear_arith)
            requires
                0 <= k <= p,
                0 <= d,
        ;
        assert(p + p * d == p * (1 + d)) by (nonlinear_arith);
        assert(p * (1 + d) <= p * n) by (nonlinear_arith)
            requires
                0 <= p,
                1 + d <= n,
        ;
    }
}

/// The walk stops early exactly when the pending set runs empty: before the
/// snapshot at which it stops something was pending at every step, and if it
/// stops short of the root nothing is pending any more.
pub proof fn lemma_walk_halts_when_settled(
    pending: Seq<PendingItemView>,
    history: Seq<SnapshotView>,
)
    ensures
        forall|steps: nat|
            steps < depth(pending, history) ==> (#[trigger] pending_after(
                pending,
                history,
                steps,
            )).len() > 0,
        depth(pending, history) < history.len() ==> pending_after(
            pending,
            history,
            depth(pending, history),
        ).len() == 0,
    decreases history.len(),
{
    if pending.len() == 0 || history.len() == 0 {
    } else {
        let kept = unchanged_at(pending, history[0]);
        let rest = history.drop_first();
        lemma_walk_halts_when_settled(kept, rest);
        assert forall|steps: nat| steps < depth(pending, history) implies (#[trigger] pending_after(
            pending,
            history,
            steps,
        )).len() > 0 by {
            if steps > 0 {
                assert(pending_after(pending, history, steps) == pending_after(
                    kept,
                    rest,
                    (steps - 1) as nat,
                ));
            }
        }
    }
}

/// The unchanged run is never longer than the history.
pub proof fn lemma_unchanged_run_is_bounded(
    history: Seq<SnapshotView>,
    path: Seq<char>,
    content_id: Seq<u8>,
)
    ensures
        unchanged_run(history, path, content_id) <= history.len(),
    decreases history.len(),
{
    if history.len() > 0 {
        lemma_unchanged_run_is_bounded(history.drop_first(), path, content_id);
    }
}

/// The unchanged run ends at the newest snapshot that does not hold the
/// content, or at the root where every snapshot holds it.
pub proof fn lemma_unchanged_run_is(
    history: Seq<SnapshotView>,
    path: Seq<char>,
    content_id: Seq<u8>,
    run: nat,
)
    requires
        run <= history.len(),
        forall|j: int| 0 <= j < run ==> holds((#[trigger] history[j]).tree, path, content_id),
        run < history.len() ==> !holds(history[run as int].tree, path, content_id),
    ensures
        unchanged_run(history, path, content_id) == run,
    decreases history.len(),
{
    if run > 0 {
        lemma_unchanged_run_is(history.drop_first(), path, content_id, (run - 1) as nat);
    }
}

/// Correctness of the boundary: where the `boundary` newest snapshots hold
/// the item's content and the next older one does not, the content changed
/// after that older snapshot, and the item's time is that of the oldest of
/// the snapshots that hold it: neither the time of the snapshot that
/// differs nor, unless it is that oldest one, the reference's.
pub proof fn lemma_boundary_is_found(
    item: PendingItemView,
    history: Seq<SnapshotView>,
    boundary: int,
)
    requires
        1 <= boundary < history.len(),
        forall|j: int| 0 <= j < boundary ==> !item.changed_in(#[trigger] history[j]),
        item.changed_in(history[boundary]),
    ensures
        last_modified(item, history) == history[boundary - 1].timestamp,
{
    lemma_unchanged_run_is(history, item.path, item.content_id, boundary as nat);
}

/// An item that the reference itself does not hold keeps the candidate it
/// came with.
pub proof fn lemma_changed_at_once_keeps_candidate(
    item: PendingItemView,
    history: Seq<SnapshotView>,
)
    requires
        history.len() == 0 || item.changed_in(history[0]),
    ensures
        last_modified(item, history) == item.candidate_timestamp,
{
}

/// Unchanged since the root: an item whose content every snapshot holds
/// gets the time of the oldest snapshot.
pub proof fn lemma_unchanged_since_root(item: PendingItemView, history: Seq<SnapshotView>)
    requires
        history.len() >= 1,
        forall|j: int| 0 <= j < history.len() ==> !item.changed_in(#[trigger] history[j]),
    ensures
        last_modified(item, history) == history.last().timestamp,
{
    lemma_unchanged_run_is(history, item.path, item.content_id, history.len());
}

/// The items found changed at the newest snapshot, together with the kept
/// ones settled by the rest of history, are the pending items settled by
/// the whole of it.
proof fn lemma_first_step_settles(pending: Seq<PendingItemView>, history: Seq<SnapshotView>)
    requires
        history.len() > 0,
    ensures
        changed_at(pending, history[0]).to_multiset().add(
            settled(unchanged_at(pending, history[0]), history.drop_first()).to_multiset(),
        ) == settled(pending, history).to_multiset(),
    decreases pending.len(),
{
    broadcast use vstd::seq_lib::group_to_multiset_ensures;

    let newest = history[0];
    let rest = history.drop_first();
    if pending.len() > 0 {
        let shorter = pending.drop_last();
        let item = pending.last();
        assert(pending =~= shorter.push(item));
        lemma_first_step_settles(shorter, history);
        lemma_partition_push(shorter, item, newest);
        assert(settled(pending, history) =~= settled(shorter, history).push(
            item.settled_by(history),
        ));
        if !item.changed_in(newest) {
            let kept = unchanged_at(shorter, newest);
            let retimed = item.with_candidate(newest.timestamp);
            lemma_unchanged_run_is_bounded(rest, item.path, item.content_id);
            assert(settled(kept.push(retimed), rest) =~= settled(kept, rest).push(
                retimed.settled_by(rest),
            ));
        }
    }
}

/// The walk settles every pending item, once: what it emits is, but for the
/// order, each pending item with the time at which history last saw it
/// change.
pub proof fn lemma_walk_settles_every_item(
    pending: Seq<PendingItemView>,
    history: Seq<SnapshotView>,
)
    ensures
        walk(pending, history).to_multiset() == settled(pending, history).to_multiset(),
        walk(pending, history).len() == pending.len(),
    decreases history.len(),
{
    if history.len() == 0 {
        assert(walk(pending, history) =~= settled(pending, history));
    } else {
        let left = changed_at(pending, history[0]);
        let kept = unchanged_at(pending, history[0]);
        let rest = history.drop_first();
        lemma_walk_settles_every_item(kept, rest);
        lemma_first_step_settles(pending, history);
        lemma_multiset_commutative(left, walk(kept, rest));
        lemma_partition_len(pending, history[0]);
    }
}

/// Whatever is pending at any later point was pending to begin with, and a
/// set without duplicate paths has none later either.
pub proof fn lemma_pending_only_shrinks(
    pending: Seq<PendingItemView>,
    history: Seq<SnapshotView>,
    steps: nat,
)
    ensures
        pending_after(pending, history, steps).len() <= pending.len(),
        forall|k: int|
            0 <= k < pending_after(pending, history, steps).len() ==> has_path(
                pending,
                (#[trigger] pending_after(pending, history, steps)[k]).path,
            ),
        distinct_paths(pending) ==> distinct_paths(pending_after(pending, history, steps)),
    decreases steps,
{
    if steps > 0 && history.len() > 0 {
        let kept = unchanged_at(pending, history[0]);
        let rest = history.drop_first();
        lemma_pending_only_shrinks(kept, rest, (steps - 1) as nat);
        lemma_partition_origin(pending, history[0]);
        if distinct_paths(pending) {
            lemma_partition_keeps_paths_distinct(pending, history[0]);
        }
    }
}

/// No double resolution: in a set without duplicate paths, a path that the
/// walk resolves at one snapshot is not pending after that snapshot, nor
/// after any later one.
pub proof fn lemma_no_double_resolution(
    pending: Seq<PendingItemView>,
    history: Seq<SnapshotView>,
    step: nat,
    later: nat,
)
    requires
        distinct_paths(pending),
        step <= later < history.len(),
    ensures
        forall|c: int, u: int|
            0 <= c < changed_in_step(pending, history, step).len() && 0 <= u < pending_after(
                pending,
                history,
                later + 1,
            ).len() ==> (#[trigger] changed_in_step(pending, history, step)[c]).path != (
            #[trigger] pending_after(pending, history, later + 1)[u]).path,
    decreases step,
{
    let newest = history[0];
    let kept = unchanged_at(pending, newest);
    let rest = history.drop_first();
    lemma_partition_keeps_paths_distinct(pending, newest);
    if step == 0 {
        lemma_pending_only_shrinks(kept, rest, later);
    } else {
        assert(changed_in_step(pending, history, step) == changed_in_step(
            kept,
            rest,
            (step - 1) as nat,
        ));
        lemma_no_double_resolution(kept, rest, (step - 1) as nat, (later - 1) as nat);
        assert(pending_after(kept, rest, ((later - 1) as nat) + 1) == pending_after(
            kept,
            rest,
            later,
        ));
    }
}

} // verus!
