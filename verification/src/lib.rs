//! Core logic of a personal task manager.
//!
//! Tasks carry subtasks, tags and an optional project reference, and are kept
//! in a [`store::TaskStore`] ordered by their manual sort position.  The three
//! engines with real logic are verified here: filtering a task collection by
//! smart view, project, tag and free-text search ([`filter`]), computing the
//! successor of a completed recurring task ([`repeat`]), and detecting at most
//! one imminently-due task per poll while never signalling the same task twice
//! ([`reminder`]).  Calendar arithmetic and the due-date string formats live in
//! [`date`].

pub mod date;
pub mod filter;
pub mod reminder;
pub mod repeat;
pub mod store;
pub mod task;
pub mod text;

mod clock;
mod ids;
