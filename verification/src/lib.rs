//! Incremental rendering of the objects of a repository's history: which
//! objects still need work, which are done, and which can never be done.
//!
//! A run has four stages. The history walker ([`history`]) records the
//! revisions of the repository. The queue builder ([`queue`]) looks at the
//! entries of each revision's tree and records every object that is new:
//! as pending where it resolves, as dead-lettered where it does not. The
//! renderer ([`render`], [`page`], [`highlight`]) ends the work on every
//! pending object and keeps the artifact of each one that is text. The tree
//! assembler ([`assemble`], [`tree_object`], [`schedule`]) says what the
//! listing page of a tree shows. [`pipeline`] runs the first three in a row.
//!
//! The state of a run lives in the four collections of a [`store`], each of
//! them a [`collection`] of a database; pending objects carry the list of
//! their filenames ([`merge`]). What holds of every run is proved in
//! [`laws`] and [`rerun`].
//!
//! The repository ([`repo`]), the database, the highlighter and the set of
//! scheduled trees are the work of other crates. The few functions that call
//! them are not proved; each says what it takes the other crate to do.

pub mod assemble;
pub mod bytes;
pub mod collection;
pub mod error;
pub mod highlight;
pub mod history;
pub mod laws;
pub mod merge;
pub mod oid;
pub mod options;
pub mod page;
pub mod pipeline;
pub mod queue;
pub mod render;
pub mod repo;
pub mod rerun;
pub mod schedule;
pub mod store;
pub mod tree_object;
