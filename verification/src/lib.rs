//! A tenant-scoped vector-relational store.
//!
//! Every collection owns a relational table of `(chunk_id, text, metadata)`
//! rows and an approximate-nearest-neighbour index of embeddings keyed by the
//! same chunk id. This crate holds the rules that keep the two stores of a
//! collection mutually consistent, and proves them:
//!
//! - [`naming`], [`sql`] and [`keys`]: how tables and snapshot files are
//!   named, what is run against a table, and how a chunk id and an index key
//!   stand for each other;
//! - [`config`] and [`index`]: the fixed configuration of an index, and what
//!   may be handed to an open index;
//! - [`opening`]: how an index is opened;
//! - [`insert`], [`search`] and [`removal`]: the coordinators, which decide in
//!   which order the operations of an insert, a search and a drop are issued
//!   and how their outcomes are answered;
//! - [`registry`], [`locks`] and [`directory`]: which indexes are open, and
//!   who may work on a collection;
//! - [`stores`]: a model of the two stores, against which the coordinators
//!   are shown to keep every vector paired with a row;
//! - [`exclusion`]: what the coordinators and the lock table ensure
//!   together;
//! - [`isolation`]: that what is done to one collection leaves every other
//!   as it is;
//! - [`fleet`]: what holds of several inserts that run at once;
//! - [`error`] and [`row`]: the failures that are reported, and text.
//!
//! Disk, network and floating point stay outside. A coordinator is a
//! transition function from a state and the outcome of the last operation to
//! the next state and the next operation; the caller performs the operation
//! and reports what became of it. An embedding never enters the crate: the
//! coordinators know a chunk's embedding by the chunk's position, and a
//! score by its bits.
pub mod config;
pub mod directory;
pub mod error;
pub mod exclusion;
pub mod fleet;
pub mod index;
pub mod insert;
pub mod isolation;
pub mod keys;
pub mod locks;
pub mod naming;
pub mod opening;
pub mod registry;
pub mod removal;
pub mod row;
pub mod search;
pub mod sql;
pub mod stores;
