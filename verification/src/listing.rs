//! The listing that a run produces: one post for each entry.

use vstd::prelude::*;
use crate::model::{CalendarDate, Timestamp};

verus! {

/// The listing of all entries.
#[derive(Debug, PartialEq, Eq)]
pub struct Listing {
    pub entries: Vec<ListingPost>,
}

/// One entry of the listing.
#[derive(Debug, PartialEq, Eq)]
pub struct ListingPost {
    /// The name under which the entry is published.
    pub slug: String,
    pub desc: Option<String>,
    pub author: Option<String>,
    /// The day that the entry's front matter gives.
    pub date: CalendarDate,
    /// When the entry's content last changed.
    pub last_modified: Timestamp,
}

} // verus!
