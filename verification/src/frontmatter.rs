//! The front matter of an entry: the block of metadata at the head of its
//! text, and what the listing takes from it.

use vstd::prelude::*;
use vstd::slice::{slice_subrange, slice_to_vec};
use crate::listing::ListingPost;
use crate::model::{CalendarDate, Timestamp};

verus! {

/// Whether an entry is being worked on.
#[derive(Clone, Copy, Debug, PartialEq, Eq, Structural)]
pub enum EntryStatus {
    Ongoing,
    Unspecified,
}

impl Default for EntryStatus {
    /// An entry that does not say otherwise is unspecified.
    fn default() -> (status: Self)
        ensures
            status == EntryStatus::Unspecified,
    {
        Self::Unspecified
    }
}

/// The metadata that an entry states about itself.
#[derive(Debug, PartialEq, Eq)]
pub struct Frontmatter {
    pub status: EntryStatus,
    pub desc: Option<String>,
    pub author: Option<String>,
    pub date: CalendarDate,
}

impl Frontmatter {
    /// Whether the entry belongs in the listing: one whose status is
    /// unspecified is passed over.
    pub fn is_listed(&self) -> (listed: bool)
        ensures
            listed == (self.status != EntryStatus::Unspecified),
    {
        self.status != EntryStatus::Unspecified
    }

    /// The post that lists the entry under `slug`, last changed at
    /// `last_modified`.
    pub fn into_post(self, slug: String, last_modified: Timestamp) -> (post: ListingPost)
        ensures
            post.slug == slug,
            post.desc == self.desc,
            post.author == self.author,
            post.date == self.date,
            post.last_modified == last_modified,
    {
        ListingPost {
            slug,
            desc: self.desc,
            date: self.date,
            author: self.author,
            last_modified,
        }
    }
}

/// The byte of which three in a row fence the front matter off: a hyphen.
pub const FENCE_BYTE: u8 = 0x2d;

/// How many bytes a fence is long.
pub const FENCE_LEN: usize = 3;

/// Whether a fence begins at `at`.
pub open spec fn fence_at(text: Seq<u8>, at: int) -> bool {
    &&& 0 <= at
    &&& at + FENCE_LEN <= text.len()
    &&& text[at] == FENCE_BYTE
    &&& text[at + 1] == FENCE_BYTE
    &&& text[at + 2] == FENCE_BYTE
}

/// Where the first fence at or after `from` begins, if there is one.
pub open spec fn next_fence(text: Seq<u8>, from: int) -> Option<int>
    decreases text.len() - from,
{
    if from < 0 || from + FENCE_LEN > text.len() {
        None
    } else if fence_at(text, from) {
        Some(from)
    } else {
        next_fence(text, from + 1)
    }
}

/// The front matter of `text`: what stands between the first fence and the
/// next one after it, or the end of the text where no second fence follows.
/// A text without a fence has no front matter.
pub open spec fn front_matter_of(text: Seq<u8>) -> Option<Seq<u8>> {
    match next_fence(text, 0) {
        None => None,
        Some(open) => match next_fence(text, open + FENCE_LEN) {
            None => Some(text.subrange(open + FENCE_LEN, text.len() as int)),
            Some(close) => Some(text.subrange(open + FENCE_LEN, close)),
        },
    }
}

/// The first fence at or after `from` is the leftmost place from there on
/// at which a fence begins.
pub proof fn lemma_next_fence_is_leftmost(text: Seq<u8>, from: int)
    requires
        0 <= from,
    ensures
        match next_fence(text, from) {
            Some(at) => from <= at && fence_at(text, at) && forall|j: int|
                from <= j < at ==> !fence_at(text, j),
            None => forall|j: int| from <= j ==> !fence_at(text, j),
        },
    decreases text.len() - from,
{
    if from + FENCE_LEN > text.len() {
    } else if fence_at(text, from) {
    } else {
        lemma_next_fence_is_leftmost(text, from + 1);
    }
}

/// Finds the first fence at or after `from`.
fn find_fence(text: &[u8], from: usize) -> (found: Option<usize>)
    requires
        from <= text@.len(),
    ensures
        match found {
            Some(at) => next_fence(text@, from as int) == Some(at as int) && from <= at && at
                + FENCE_LEN <= text@.len(),
            None => next_fence(text@, from as int) is None,
        },
{
    let len = text.len();
    let mut at: usize = from;
    while len - at >= FENCE_LEN
        invariant
            len == text@.len(),
            from <= at <= len,
            next_fence(text@, from as int) == next_fence(text@, at as int),
        decreases len - at,
    {
        if text[at] == FENCE_BYTE && text[at + 1] == FENCE_BYTE && text[at + 2] == FENCE_BYTE {
            return Some(at);
        }
        at += 1;
    }
    None
}

/// Cuts the front matter out of an entry's text.
pub fn front_matter(text: &[u8]) -> (block: Option<Vec<u8>>)
    ensures
        match block {
            Some(bytes) => front_matter_of(text@) == Some(bytes@),
            None => front_matter_of(text@) is None,
        },
{
    let len = text.len();
    match find_fence(text, 0) {
        None => None,
        Some(open) => {
            let begin = open + FENCE_LEN;
            let end = match find_fence(text, begin) {
                None => len,
                Some(close) => close,
            };
            Some(slice_to_vec(slice_subrange(text, begin, end)))
        },
    }
}

} // verus!
