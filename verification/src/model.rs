//! The data that the resolution works on: instants, content identifiers and
//! the three stages of an entry.

use vstd::prelude::*;

verus! {

/// An instant, as seconds and nanoseconds since the Unix epoch in UTC.
///
/// The resolution never inspects an instant: it only carries it from a
/// snapshot, or from the caller, to the entry it belongs to.
#[derive(Clone, Copy, Debug, PartialEq, Eq, Structural)]
pub struct Timestamp {
    pub seconds: i64,
    pub nanos: u32,
}

/// A day of the calendar, without a time of day or a time zone.
#[derive(Clone, Copy, Debug, PartialEq, Eq, Structural)]
pub struct CalendarDate {
    pub year: i32,
    pub month: u32,
    pub day: u32,
}

/// A content-addressed identifier: equal content has equal identifiers.
///
/// Two identifiers can be compared for equality and nothing else.
#[derive(Debug, PartialEq, Eq)]
pub struct ContentId {
    pub bytes: Vec<u8>,
}

impl View for ContentId {
    type V = Seq<u8>;

    open spec fn view(&self) -> Seq<u8> {
        self.bytes@
    }
}

impl Clone for ContentId {
    fn clone(&self) -> (copy: Self)
        ensures
            copy@ == self@,
    {
        ContentId { bytes: self.bytes.clone() }
    }
}

impl ContentId {
    /// The identifier made of `bytes`.
    pub fn new(bytes: Vec<u8>) -> (id: ContentId)
        ensures
            id@ == bytes@,
    {
        ContentId { bytes }
    }

    /// Whether the two identifiers name the same content.
    pub fn same(&self, other: &ContentId) -> (equal: bool)
        ensures
            equal == (self@ == other@),
    {
        if self.bytes.len() != other.bytes.len() {
            return false;
        }
        let mut i: usize = 0;
        while i < self.bytes.len()
            invariant
                i <= self.bytes.len(),
                self.bytes.len() == other.bytes.len(),
                forall|j: int| 0 <= j < i ==> self.bytes@[j] == other.bytes@[j],
            decreases self.bytes.len() - i,
        {
            if self.bytes[i] != other.bytes[i] {
                return false;
            }
            i += 1;
        }
        assert(self.bytes@ =~= other.bytes@);
        true
    }
}

/// A tracked unit of content, as the caller knows it today.
#[derive(Debug, PartialEq, Eq)]
pub struct Entry {
    /// Where the entry lies within the versioned tree; its identity.
    pub path: String,
    /// The identifier of the entry's current content.
    pub content_id: ContentId,
    /// The instant to report if history does not know the entry at all.
    pub fallback_timestamp: Timestamp,
}

/// What an [`Entry`] is in contracts.
pub struct EntryView {
    pub path: Seq<char>,
    pub content_id: Seq<u8>,
    pub fallback_timestamp: Timestamp,
}

impl View for Entry {
    type V = EntryView;

    open spec fn view(&self) -> EntryView {
        EntryView {
            path: self.path@,
            content_id: self.content_id@,
            fallback_timestamp: self.fallback_timestamp,
        }
    }
}

/// An entry whose last change has not been found yet.
#[derive(Debug, PartialEq, Eq)]
pub struct PendingItem {
    pub path: String,
    pub content_id: ContentId,
    /// The time of the newest snapshot seen so far that holds the entry's
    /// current content; each step of the walk overwrites it.
    pub candidate_timestamp: Timestamp,
}

/// What a [`PendingItem`] is in contracts.
pub struct PendingItemView {
    pub path: Seq<char>,
    pub content_id: Seq<u8>,
    pub candidate_timestamp: Timestamp,
}

impl DeepView for PendingItem {
    type V = PendingItemView;

    open spec fn deep_view(&self) -> PendingItemView {
        self@
    }
}

impl View for PendingItem {
    type V = PendingItemView;

    open spec fn view(&self) -> PendingItemView {
        PendingItemView {
            path: self.path@,
            content_id: self.content_id@,
            candidate_timestamp: self.candidate_timestamp,
        }
    }
}

/// An entry together with the time at which its content last changed.
#[derive(Debug, PartialEq, Eq)]
pub struct ResolvedEntry {
    pub path: String,
    pub content_id: ContentId,
    pub last_modified_timestamp: Timestamp,
}

/// What a [`ResolvedEntry`] is in contracts.
pub struct ResolvedEntryView {
    pub path: Seq<char>,
    pub content_id: Seq<u8>,
    pub last_modified_timestamp: Timestamp,
}

impl DeepView for ResolvedEntry {
    type V = ResolvedEntryView;

    open spec fn deep_view(&self) -> ResolvedEntryView {
        self@
    }
}

impl View for ResolvedEntry {
    type V = ResolvedEntryView;

    open spec fn view(&self) -> ResolvedEntryView {
        ResolvedEntryView {
            path: self.path@,
            content_id: self.content_id@,
            last_modified_timestamp: self.last_modified_timestamp,
        }
    }
}

impl EntryView {
    /// The entry as it enters the pending set, with `initial` as its first
    /// candidate.
    pub open spec fn pending(self, initial: Timestamp) -> PendingItemView {
        PendingItemView {
            path: self.path,
            content_id: self.content_id,
            candidate_timestamp: initial,
        }
    }

    /// The entry resolved outside of history, by its fallback.
    pub open spec fn resolved_by_fallback(self) -> ResolvedEntryView {
        ResolvedEntryView {
            path: self.path,
            content_id: self.content_id,
            last_modified_timestamp: self.fallback_timestamp,
        }
    }
}

impl PendingItemView {
    /// The item resolved with the candidate it holds.
    pub open spec fn resolved(self) -> ResolvedEntryView {
        ResolvedEntryView {
            path: self.path,
            content_id: self.content_id,
            last_modified_timestamp: self.candidate_timestamp,
        }
    }

    /// The item with `time` in place of its candidate.
    pub open spec fn with_candidate(self, time: Timestamp) -> PendingItemView {
        PendingItemView {
            path: self.path,
            content_id: self.content_id,
            candidate_timestamp: time,
        }
    }
}

impl DeepView for Entry {
    type V = EntryView;

    open spec fn deep_view(&self) -> EntryView {
        self@
    }
}

impl Entry {
    /// Turns the entry into a pending item whose candidate is `initial`.
    pub fn into_pending(self, initial: Timestamp) -> (item: PendingItem)
        ensures
            item@ == self@.pending(initial),
    {
        PendingItem {
            path: self.path,
            content_id: self.content_id,
            candidate_timestamp: initial,
        }
    }

    /// Resolves the entry by its fallback, for content that history does
    /// not know.
    pub fn into_resolved_by_fallback(self) -> (resolved: ResolvedEntry)
        ensures
            resolved@ == self@.resolved_by_fallback(),
    {
        ResolvedEntry {
            path: self.path,
            content_id: self.content_id,
            last_modified_timestamp: self.fallback_timestamp,
        }
    }
}

impl PendingItem {
    /// Resolves the item with the candidate it holds.
    pub fn into_resolved(self) -> (resolved: ResolvedEntry)
        ensures
            resolved@ == self@.resolved(),
    {
        ResolvedEntry {
            path: self.path,
            content_id: self.content_id,
            last_modified_timestamp: self.candidate_timestamp,
        }
    }

    /// Keeps the item pending, with `time` as its new candidate.
    pub fn into_retimed(self, time: Timestamp) -> (item: PendingItem)
        ensures
            item@ == self@.with_candidate(time),
    {
        PendingItem { path: self.path, content_id: self.content_id, candidate_timestamp: time }
    }
}

} // verus!
