use gust::error::ResolveError;
use gust::model::{ContentId, Entry, PendingItem, ResolvedEntry, Timestamp};
use gust::pending::PendingSet;
use gust::resolver::{resolve, stage, Resolver};
use gust::snapshot::{Snapshot, Tree};
use gust::walker::{HistoryWalker, WalkAction, WalkEvent};

fn at(seconds: i64) -> Timestamp {
    Timestamp { seconds, nanos: 0 }
}

fn id(byte: u8) -> ContentId {
    ContentId::new(vec![byte; 20])
}

fn entry(path: &str, content: u8, fallback: i64) -> Entry {
    Entry { path: path.to_string(), content_id: id(content), fallback_timestamp: at(fallback) }
}

fn snapshot(time: i64, files: &[(&str, u8)]) -> Snapshot {
    let mut tree = Tree::new();
    for (path, content) in files {
        tree.insert(path.to_string(), id(*content));
    }
    Snapshot { timestamp: at(time), tree }
}

fn resolved(path: &str, content: u8, time: i64) -> ResolvedEntry {
    ResolvedEntry {
        path: path.to_string(),
        content_id: id(content),
        last_modified_timestamp: at(time),
    }
}

fn time_of(entries: &[ResolvedEntry], path: &str) -> Timestamp {
    let found: Vec<&ResolvedEntry> = entries.iter().filter(|e| e.path == path).collect();
    assert_eq!(found.len(), 1, "{} is resolved once", path);
    found[0].last_modified_timestamp
}

const X: u8 = 0x58;
const Y: u8 = 0x59;
const NOW: i64 = 9_000;

#[test]
fn scenario_three_snapshots() {
    // Newest first: S2 is the reference, S0 the root.
    let history = vec![
        snapshot(300, &[("a", X), ("b", X)]),
        snapshot(200, &[("a", X), ("b", X)]),
        snapshot(100, &[("a", Y), ("b", X)]),
    ];
    let entries = vec![entry("a", X, NOW), entry("b", X, NOW), entry("c", X, NOW)];
    let done = resolve(entries, &history).unwrap();
    assert_eq!(done.entries.len(), 3);
    assert_eq!(time_of(&done.entries, "a"), at(200));
    assert_eq!(time_of(&done.entries, "b"), at(100));
    assert_eq!(time_of(&done.entries, "c"), at(NOW));
    // Untracked entries come first, then the entries in the order in which
    // the walk settles them.
    assert_eq!(
        done.entries,
        vec![resolved("c", X, NOW), resolved("a", X, 200), resolved("b", X, 100)]
    );
    assert_eq!(done.snapshots_visited, 3);
    // Two items are pending at each of the three snapshots.
    assert_eq!(done.comparisons, 6);
}

#[test]
fn walk_stops_once_nothing_is_pending() {
    // A deep history in which both entries differ from the second snapshot on.
    let mut history = vec![snapshot(1_000, &[("a", X), ("b", X)])];
    for step in 1..50 {
        history.push(snapshot(1_000 - step, &[("a", Y), ("b", Y)]));
    }
    let entries = vec![entry("a", X, NOW), entry("b", X, NOW)];
    let done = resolve(entries, &history).unwrap();
    assert_eq!(done.snapshots_visited, 2);
    assert_eq!(done.comparisons, 4);
    assert_eq!(time_of(&done.entries, "a"), at(1_000));
    assert_eq!(time_of(&done.entries, "b"), at(1_000));
}

#[test]
fn walk_cost_stays_within_its_bound() {
    let history = vec![
        snapshot(40, &[("a", X), ("b", X), ("c", X)]),
        snapshot(30, &[("a", X), ("b", X), ("c", Y)]),
        snapshot(20, &[("a", X), ("b", Y), ("c", Y)]),
        snapshot(10, &[("a", X), ("b", Y), ("c", Y)]),
    ];
    let entries = vec![entry("a", X, NOW), entry("b", X, NOW), entry("c", X, NOW)];
    let done = resolve(entries, &history).unwrap();
    assert_eq!(done.snapshots_visited, 4);
    // 3 pending at the first two snapshots, 2 at the third, 1 at the fourth.
    assert_eq!(done.comparisons, 3 + 3 + 2 + 1);
    assert!(done.comparisons <= 3 * 4);
    assert_eq!(time_of(&done.entries, "a"), at(10));
    assert_eq!(time_of(&done.entries, "b"), at(30));
    assert_eq!(time_of(&done.entries, "c"), at(40));
}

#[test]
fn nothing_pending_visits_nothing() {
    let history = vec![snapshot(2, &[("a", X)]), snapshot(1, &[("a", X)])];
    let done = resolve(vec![], &history).unwrap();
    assert!(done.entries.is_empty());
    assert_eq!(done.snapshots_visited, 0);
    assert_eq!(done.comparisons, 0);
}

#[test]
fn boundary_is_the_oldest_snapshot_of_the_unchanged_run() {
    // Content differs at the snapshot taken at 20 and is the same from 30 on.
    let history = vec![
        snapshot(50, &[("a", X)]),
        snapshot(40, &[("a", X)]),
        snapshot(30, &[("a", X)]),
        snapshot(20, &[("a", Y)]),
        snapshot(10, &[("a", X)]),
    ];
    let done = resolve(vec![entry("a", X, NOW)], &history).unwrap();
    let time = time_of(&done.entries, "a");
    assert_eq!(time, at(30));
    assert_ne!(time, at(20));
    assert_ne!(time, at(50));
    assert_eq!(done.snapshots_visited, 4);
}

#[test]
fn path_missing_from_an_older_snapshot_counts_as_changed() {
    let history = vec![snapshot(3, &[("a", X)]), snapshot(2, &[("a", X)]), snapshot(1, &[])];
    let done = resolve(vec![entry("a", X, NOW)], &history).unwrap();
    assert_eq!(done.entries, vec![resolved("a", X, 2)]);
}

#[test]
fn unchanged_since_root_gets_the_root_time() {
    let history = vec![
        snapshot(30, &[("a", X)]),
        snapshot(20, &[("a", X)]),
        snapshot(10, &[("a", X)]),
    ];
    let done = resolve(vec![entry("a", X, NOW)], &history).unwrap();
    assert_eq!(done.entries, vec![resolved("a", X, 10)]);
    assert_eq!(done.snapshots_visited, 3);
}

#[test]
fn single_snapshot_history() {
    let history = vec![snapshot(7, &[("a", X)])];
    let done = resolve(vec![entry("a", X, NOW)], &history).unwrap();
    assert_eq!(done.entries, vec![resolved("a", X, 7)]);
}

#[test]
fn entry_modified_since_the_reference_keeps_the_reference_time() {
    // The reference holds the path with other content.
    let history = vec![snapshot(30, &[("a", Y)]), snapshot(20, &[("a", X)])];
    let done = resolve(vec![entry("a", X, NOW)], &history).unwrap();
    assert_eq!(done.entries, vec![resolved("a", X, 30)]);
    assert_eq!(done.snapshots_visited, 1);
}

#[test]
fn untracked_entry_uses_fallback_and_costs_nothing() {
    let history = vec![snapshot(30, &[("a", X)]), snapshot(20, &[("a", X), ("new", X)])];
    let entries = vec![entry("new", X, 1234), entry("a", X, NOW)];
    let (aside, pending) = stage(
        vec![entry("new", X, 1234), entry("a", X, NOW)],
        &history[0],
    );
    assert_eq!(aside, vec![resolved("new", X, 1234)]);
    assert_eq!(pending.len(), 1);
    assert_eq!(pending.items()[0].path, "a");
    assert_eq!(pending.items()[0].candidate_timestamp, at(30));

    let done = resolve(entries, &history).unwrap();
    assert_eq!(time_of(&done.entries, "new"), at(1234));
    assert_eq!(time_of(&done.entries, "a"), at(20));
    // One pending item at two snapshots: the new entry is never compared.
    assert_eq!(done.comparisons, 2);
}

#[test]
fn only_untracked_entries_walk_nothing() {
    let history = vec![snapshot(30, &[]), snapshot(20, &[])];
    let done = resolve(vec![entry("n", X, 5), entry("m", Y, 6)], &history).unwrap();
    assert_eq!(done.entries, vec![resolved("n", X, 5), resolved("m", Y, 6)]);
    assert_eq!(done.snapshots_visited, 0);
    assert_eq!(done.comparisons, 0);
}

#[test]
fn empty_history_has_no_reference() {
    let outcome = resolve(vec![entry("a", X, NOW)], &vec![]);
    assert_eq!(outcome, Err(ResolveError::ReferenceNotFound));
}

#[test]
fn partition_splits_changed_from_unchanged() {
    let mut set = PendingSet::seed(
        vec![entry("a", X, NOW), entry("b", X, NOW), entry("c", X, NOW)],
        at(100),
    );
    assert_eq!(set.len(), 3);
    let changed = set.partition(&snapshot(90, &[("a", X), ("b", Y)]));
    // "b" differs and "c" is absent: both resolve with the candidate they held.
    assert_eq!(changed, vec![resolved("b", X, 100), resolved("c", X, 100)]);
    assert_eq!(
        set.items(),
        &vec![PendingItem {
            path: "a".to_string(),
            content_id: id(X),
            candidate_timestamp: at(90),
        }]
    );
}

#[test]
fn no_path_is_resolved_and_kept() {
    let mut set = PendingSet::seed(
        vec![entry("a", X, NOW), entry("b", X, NOW), entry("c", X, NOW), entry("d", X, NOW)],
        at(100),
    );
    let history = vec![
        snapshot(90, &[("a", X), ("b", X), ("c", X), ("d", Y)]),
        snapshot(80, &[("a", X), ("b", Y), ("c", X)]),
        snapshot(70, &[("a", X), ("c", Y)]),
    ];
    let mut gone: Vec<String> = Vec::new();
    for snapshot in &history {
        let changed = set.partition(snapshot);
        for entry in changed {
            assert!(!gone.contains(&entry.path));
            gone.push(entry.path);
        }
        for item in set.items() {
            assert!(!gone.contains(&item.path));
        }
    }
    assert_eq!(gone, vec!["d".to_string(), "b".to_string(), "c".to_string()]);
    assert_eq!(set.len(), 1);
}

#[test]
fn seed_sets_every_candidate() {
    let set = PendingSet::seed(vec![entry("a", X, 1), entry("b", Y, 2)], at(77));
    assert_eq!(set.len(), 2);
    assert!(!set.is_empty());
    for item in set.items() {
        assert_eq!(item.candidate_timestamp, at(77));
    }
    assert_eq!(set.items()[0].path, "a");
    assert_eq!(set.items()[1].content_id, id(Y));
}

#[test]
fn drain_resolves_with_the_candidates_held() {
    let mut set = PendingSet::seed(vec![entry("a", X, 1), entry("b", Y, 2)], at(77));
    let _ = set.partition(&snapshot(66, &[("a", X), ("b", Y)]));
    let rest = set.drain();
    assert_eq!(rest, vec![resolved("a", X, 66), resolved("b", Y, 66)]);
    assert!(set.is_empty());
    assert_eq!(PendingSet::new().len(), 0);
}

#[test]
fn walker_asks_for_snapshots_until_settled() {
    let pending = PendingSet::seed(vec![entry("a", X, NOW), entry("b", X, NOW)], at(30));
    let mut walker = HistoryWalker::new(pending);
    assert_eq!(walker.action(), WalkAction::Fetch);
    assert_eq!(
        walker.step(WalkEvent::Snapshot(snapshot(30, &[("a", X), ("b", X)]))),
        WalkAction::Fetch
    );
    assert_eq!(
        walker.step(WalkEvent::Snapshot(snapshot(20, &[("a", Y), ("b", X)]))),
        WalkAction::Fetch
    );
    assert_eq!(walker.pending().len(), 1);
    assert_eq!(walker.step(WalkEvent::Snapshot(snapshot(10, &[("a", Y)]))), WalkAction::Stop);
    assert_eq!(walker.finish(), Ok(vec![resolved("a", X, 30), resolved("b", X, 20)]));
}

#[test]
fn walker_drains_when_history_runs_out() {
    let pending = PendingSet::seed(vec![entry("a", X, NOW)], at(30));
    let mut walker = HistoryWalker::new(pending);
    assert_eq!(
        walker.step(WalkEvent::Snapshot(snapshot(30, &[("a", X)]))),
        WalkAction::Fetch
    );
    assert_eq!(
        walker.step(WalkEvent::Snapshot(snapshot(20, &[("a", X)]))),
        WalkAction::Fetch
    );
    assert_eq!(walker.step(WalkEvent::Exhausted), WalkAction::Stop);
    assert_eq!(walker.finish(), Ok(vec![resolved("a", X, 20)]));
}

#[test]
fn walker_without_pending_items_stops_at_once() {
    let walker = HistoryWalker::new(PendingSet::new());
    assert_eq!(walker.action(), WalkAction::Stop);
    assert_eq!(walker.finish(), Ok(vec![]));
}

#[test]
fn failure_leaves_no_partial_result() {
    let pending = PendingSet::seed(vec![entry("a", X, NOW), entry("b", X, NOW)], at(30));
    let mut walker = HistoryWalker::new(pending);
    walker.step(WalkEvent::Snapshot(snapshot(30, &[("a", X)])));
    assert_eq!(
        walker.step(WalkEvent::Failed(ResolveError::CorruptHistory)),
        WalkAction::Stop
    );
    // What comes after the failure changes nothing, not even another failure.
    assert_eq!(walker.step(WalkEvent::Snapshot(snapshot(20, &[("a", X)]))), WalkAction::Stop);
    assert_eq!(
        walker.step(WalkEvent::Failed(ResolveError::WorkingTreeUnavailable)),
        WalkAction::Stop
    );
    assert_eq!(walker.step(WalkEvent::Exhausted), WalkAction::Stop);
    assert_eq!(walker.finish(), Err(ResolveError::CorruptHistory));
}

#[test]
fn run_reports_what_the_steps_report() {
    let history = vec![
        snapshot(30, &[("a", X), ("b", X)]),
        snapshot(20, &[("a", Y), ("b", X)]),
        snapshot(10, &[("a", Y), ("b", X)]),
    ];
    let report = HistoryWalker::run(
        PendingSet::seed(vec![entry("a", X, NOW), entry("b", X, NOW)], at(30)),
        &history,
    );
    assert_eq!(report.resolved, vec![resolved("a", X, 30), resolved("b", X, 10)]);
    assert_eq!(report.snapshots_visited, 3);
    assert_eq!(report.comparisons, 2 + 2 + 1);

    let mut walker =
        HistoryWalker::new(PendingSet::seed(vec![entry("a", X, NOW), entry("b", X, NOW)], at(30)));
    for snapshot in history {
        walker.step(WalkEvent::Snapshot(snapshot));
    }
    walker.step(WalkEvent::Exhausted);
    assert_eq!(walker.finish(), Ok(report.resolved));
}

#[test]
fn resolver_drives_the_whole_resolution() {
    let reference = snapshot(30, &[("a", X), ("b", X)]);
    let mut resolver = Resolver::begin(
        vec![entry("a", X, NOW), entry("c", X, 555), entry("b", X, NOW)],
        &reference,
    );
    assert_eq!(resolver.action(), WalkAction::Fetch);
    assert_eq!(resolver.pending().len(), 2);
    assert_eq!(resolver.step(WalkEvent::Snapshot(reference)), WalkAction::Fetch);
    assert_eq!(
        resolver.step(WalkEvent::Snapshot(snapshot(20, &[("a", Y), ("b", X)]))),
        WalkAction::Fetch
    );
    assert_eq!(resolver.step(WalkEvent::Exhausted), WalkAction::Stop);
    assert_eq!(
        resolver.finish(),
        Ok(vec![resolved("c", X, 555), resolved("a", X, 30), resolved("b", X, 20)])
    );
}

#[test]
fn resolver_failure_drops_untracked_entries_too() {
    let reference = snapshot(30, &[("a", X)]);
    let mut resolver = Resolver::begin(vec![entry("a", X, NOW), entry("c", X, 555)], &reference);
    assert_eq!(
        resolver.step(WalkEvent::Failed(ResolveError::WorkingTreeUnavailable)),
        WalkAction::Stop
    );
    assert_eq!(resolver.finish(), Err(ResolveError::WorkingTreeUnavailable));
}

#[test]
fn tree_lookup_finds_the_latest_insertion() {
    let mut tree = Tree::new();
    assert_eq!(tree.lookup(&"a".to_string()), None);
    tree.insert("a".to_string(), id(X));
    tree.insert("b".to_string(), id(Y));
    assert_eq!(tree.lookup(&"a".to_string()), Some(&id(X)));
    tree.insert("a".to_string(), id(Y));
    assert_eq!(tree.lookup(&"a".to_string()), Some(&id(Y)));
    assert_eq!(tree.lookup(&"b".to_string()), Some(&id(Y)));
    assert_eq!(tree.lookup(&"c".to_string()), None);
}

#[test]
fn content_ids_compare_by_their_bytes() {
    assert!(id(X).same(&id(X)));
    assert!(!id(X).same(&id(Y)));
    assert!(!ContentId::new(vec![1, 2]).same(&ContentId::new(vec![1, 2, 3])));
    assert!(ContentId::new(vec![]).same(&ContentId::new(vec![])));
    let copy = id(X).clone();
    assert!(copy.same(&id(X)));
}

#[test]
fn entries_change_stage_with_their_data() {
    let item = entry("a", X, 5).into_pending(at(9));
    assert_eq!(item.candidate_timestamp, at(9));
    let item = item.into_retimed(at(8));
    assert_eq!(item.into_resolved(), resolved("a", X, 8));
    assert_eq!(entry("a", X, 5).into_resolved_by_fallback(), resolved("a", X, 5));
}

#[test]
fn each_error_says_what_went_wrong() {
    assert_eq!(
        ResolveError::ReferenceNotFound.message(),
        "the reference does not name a snapshot"
    );
    assert_eq!(
        ResolveError::CorruptHistory.message(),
        "a snapshot's tree or ancestry cannot be read"
    );
    assert_eq!(
        ResolveError::WorkingTreeUnavailable.message(),
        "the working tree cannot be located"
    );
}

#[test]
fn snapshots_after_the_stop_change_nothing() {
    let seed = || PendingSet::seed(vec![entry("a", X, NOW)], at(30));
    let mut stopped = HistoryWalker::new(seed());
    stopped.step(WalkEvent::Snapshot(snapshot(30, &[("a", X)])));
    assert_eq!(stopped.step(WalkEvent::Snapshot(snapshot(20, &[]))), WalkAction::Stop);

    let mut continued = HistoryWalker::new(seed());
    continued.step(WalkEvent::Snapshot(snapshot(30, &[("a", X)])));
    continued.step(WalkEvent::Snapshot(snapshot(20, &[])));
    assert_eq!(
        continued.step(WalkEvent::Snapshot(snapshot(10, &[("a", X)]))),
        WalkAction::Stop
    );
    assert_eq!(continued.step(WalkEvent::Exhausted), WalkAction::Stop);

    assert_eq!(stopped.finish(), Ok(vec![resolved("a", X, 30)]));
    assert_eq!(continued.finish(), Ok(vec![resolved("a", X, 30)]));
}

#[test]
fn duplicate_paths_are_each_resolved_on_their_own() {
    let history = vec![snapshot(30, &[("a", X)]), snapshot(20, &[("a", Y)])];
    let done = resolve(vec![entry("a", X, NOW), entry("a", Y, NOW)], &history).unwrap();
    assert_eq!(done.entries, vec![resolved("a", Y, 30), resolved("a", X, 30)]);
}

/// A small deterministic generator of test inputs.
struct Lcg(u64);

impl Lcg {
    fn next(&mut self, bound: usize) -> usize {
        self.0 = self.0.wrapping_mul(6364136223846793005).wrapping_add(1442695040888963407);
        ((self.0 >> 33) as usize) % bound
    }
}

/// The resolution written out plainly over paths, content bytes and times.
fn plain_resolution(
    entries: &[(String, u8, i64)],
    history: &[(i64, Vec<(String, u8)>)],
) -> (Vec<(String, u8, i64)>, usize, u128) {
    let lookup = |files: &Vec<(String, u8)>, path: &String| {
        files.iter().rev().find(|(p, _)| p == path).map(|(_, content)| *content)
    };
    let mut done = Vec::new();
    let mut pending = Vec::new();
    for (path, content, fallback) in entries {
        if lookup(&history[0].1, path).is_some() {
            pending.push((path.clone(), *content, history[0].0));
        } else {
            done.push((path.clone(), *content, *fallback));
        }
    }
    let mut visited = 0;
    let mut comparisons = 0;
    for (time, files) in history {
        if pending.is_empty() {
            break;
        }
        visited += 1;
        let mut kept = Vec::new();
        for (path, content, candidate) in pending.drain(..) {
            comparisons += 1;
            if lookup(files, &path) == Some(content) {
                kept.push((path, content, *time));
            } else {
                done.push((path, content, candidate));
            }
        }
        pending = kept;
    }
    done.extend(pending);
    (done, visited, comparisons)
}

#[test]
fn resolution_agrees_with_the_plain_one_on_many_histories() {
    let mut lcg = Lcg(3);
    let names = ["a", "b", "c", "d", "e"];
    for _ in 0..3_000 {
        let depth = 1 + lcg.next(6);
        let mut history = Vec::new();
        for step in 0..depth {
            let mut files = Vec::new();
            for name in names {
                if lcg.next(4) != 0 {
                    files.push((name.to_string(), lcg.next(2) as u8));
                }
            }
            history.push((1_000 - step as i64, files));
        }
        let mut entries = Vec::new();
        for name in names {
            if lcg.next(3) != 0 {
                entries.push((name.to_string(), lcg.next(2) as u8, 5_000 + lcg.next(9) as i64));
            }
        }

        let (expected, visited, comparisons) = plain_resolution(&entries, &history);

        let given: Vec<Entry> = entries
            .iter()
            .map(|(path, content, fallback)| entry(path, *content, *fallback))
            .collect();
        let snapshots: Vec<Snapshot> = history
            .iter()
            .map(|(time, files)| {
                let files: Vec<(&str, u8)> =
                    files.iter().map(|(path, content)| (path.as_str(), *content)).collect();
                snapshot(*time, &files)
            })
            .collect();
        let done = resolve(given, &snapshots).unwrap();
        let expected: Vec<ResolvedEntry> = expected
            .iter()
            .map(|(path, content, time)| resolved(path, *content, *time))
            .collect();
        assert_eq!(done.entries, expected);
        assert_eq!(done.snapshots_visited, visited);
        assert_eq!(done.comparisons, comparisons);
    }
}
