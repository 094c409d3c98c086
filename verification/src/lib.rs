//! A verified to-do list library.
//!
//! The core is an ordered task collection ([`task::TaskList`]) whose
//! identifiers are zero-based positions: removing a task shifts every later
//! task down by one position. The collection supports adding, completing and
//! removing tasks, adding and removing tags, and filtered or unfiltered
//! listing. [`codec`] renders the collection to the persisted text format and
//! parses it back; [`command`] applies one structured command to a collection.

pub mod codec;
pub mod command;
pub mod date;
pub mod error;
pub mod task;
