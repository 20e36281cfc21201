//! Last-modified resolution over a linear commit history.
//!
//! For a set of content entries the library finds, for each entry, the newest
//! run of snapshots in which its content is the same as today, and reports the
//! time of the oldest snapshot of that run. History is consumed newest first
//! and only as far as is needed to settle every entry.
//!
//! The library reads no repository and no file. Its caller fetches snapshots
//! and hands them in, either one at a time to a [`resolver::Resolver`], which
//! says after each whether it wants another, or all at once to
//! [`resolver::resolve`].
//!
//! - [`model`]: instants, content identifiers, and entries as they are
//!   given, pending and resolved
//! - [`snapshot`]: a snapshot's time and tree
//! - [`pending`]: the set of unresolved entries and its partition by a
//!   snapshot
//! - [`walk`]: what a walk through history computes, and the laws of it
//! - [`walker`]: the walk itself, step by step or over a whole history
//! - [`resolver`]: the driver, which also deals with entries that history
//!   does not know
//! - [`error`]: the failures of a resolution
//! - [`frontmatter`], [`listing`], [`paths`]: the metadata of an entry, the
//!   listing made of it, and the paths and slugs of entries

pub mod error;
pub mod frontmatter;
pub mod listing;
pub mod model;
pub mod paths;
pub mod pending;
pub mod resolver;
pub mod snapshot;
pub mod walk;
pub mod walker;
