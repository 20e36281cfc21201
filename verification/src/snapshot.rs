//! Snapshots of the versioned tree, reduced to what the resolution reads:
//! when the snapshot was taken and which content lies at which path.

use vstd::prelude::*;
use crate::model::{ContentId, Timestamp};

verus! {

/// One path of a snapshot's tree with the content found there.
#[derive(Debug, PartialEq, Eq)]
pub struct TreeEntry {
    pub path: String,
    pub content_id: ContentId,
}

/// The tree of one snapshot: a finite map from paths to content identifiers.
///
/// A path that was never inserted is absent from the snapshot.
#[derive(Debug, PartialEq, Eq)]
pub struct Tree {
    entries: Vec<TreeEntry>,
}

/// The map that a list of insertions builds: a later insertion for a path
/// replaces an earlier one.
pub open spec fn map_of(entries: Seq<TreeEntry>) -> Map<Seq<char>, Seq<u8>>
    decreases entries.len(),
{
    if entries.len() == 0 {
        Map::empty()
    } else {
        map_of(entries.drop_last()).insert(entries.last().path@, entries.last().content_id@)
    }
}

/// Entries that do not name `path` leave its place in the map as it was.
proof fn lemma_map_of_skips(entries: Seq<TreeEntry>, from: int, path: Seq<char>)
    requires
        0 <= from <= entries.len(),
        forall|j: int| from <= j < entries.len() ==> entries[j].path@ != path,
    ensures
        map_of(entries).contains_key(path) == map_of(entries.take(from)).contains_key(path),
        map_of(entries).contains_key(path) ==> map_of(entries)[path] == map_of(
            entries.take(from),
        )[path],
    decreases entries.len() - from,
{
    if from == entries.len() {
        assert(entries.take(from) =~= entries);
    } else {
        let shorter = entries.drop_last();
        lemma_map_of_skips(shorter, from, path);
        assert(shorter.take(from) =~= entries.take(from));
    }
}

impl View for Tree {
    type V = Map<Seq<char>, Seq<u8>>;

    closed spec fn view(&self) -> Map<Seq<char>, Seq<u8>> {
        map_of(self.entries@)
    }
}

impl Tree {
    /// The tree that holds no path.
    pub fn new() -> (tree: Tree)
        ensures
            tree@ == Map::<Seq<char>, Seq<u8>>::empty(),
    {
        Tree { entries: Vec::new() }
    }

    /// Records that `content_id` lies at `path`, in place of whatever was
    /// recorded there before.
    pub fn insert(&mut self, path: String, content_id: ContentId)
        ensures
            final(self)@ == old(self)@.insert(path@, content_id@),
    {
        self.entries.push(TreeEntry { path, content_id });
        proof {
            assert(self.entries@.drop_last() =~= old(self).entries@);
        }
    }

    /// The content at `path`, or `None` where the snapshot has no such path.
    pub fn lookup(&self, path: &String) -> (found: Option<&ContentId>)
        ensures
            (found is Some) == self@.contains_key(path@),
            found matches Some(id) ==> id@ == self@[path@],
    {
        let mut i: usize = self.entries.len();
        while i > 0
            invariant
                i <= self.entries.len(),
                forall|j: int| i <= j < self.entries.len() ==> self.entries@[j].path@ != path@,
            decreases i,
        {
            i -= 1;
            if self.entries[i].path == *path {
                proof {
                    lemma_map_of_skips(self.entries@, i as int + 1, path@);
                }
                return Some(&self.entries[i].content_id);
            }
        }
        proof {
            lemma_map_of_skips(self.entries@, 0, path@);
        }
        None
    }
}

/// An immutable, timestamped state of the whole tracked tree.
#[derive(Debug, PartialEq, Eq)]
pub struct Snapshot {
    pub timestamp: Timestamp,
    pub tree: Tree,
}

/// What a [`Snapshot`] is in contracts.
pub struct SnapshotView {
    pub timestamp: Timestamp,
    pub tree: Map<Seq<char>, Seq<u8>>,
}

impl View for Snapshot {
    type V = SnapshotView;

    open spec fn view(&self) -> SnapshotView {
        SnapshotView { timestamp: self.timestamp, tree: self.tree@ }
    }
}

impl DeepView for Snapshot {
    type V = SnapshotView;

    open spec fn deep_view(&self) -> SnapshotView {
        self@
    }
}

} // verus!
