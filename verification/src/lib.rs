//! The core of a local IMAP cache: it mirrors the mailboxes and messages of
//! remote mail servers into a cache, keeps the cache in agreement with the
//! servers, and answers requests from the cache.
//!
//! The library does no I/O. Whoever uses it talks to the servers and keeps
//! the cache on disk; the library decides what is to be asked of a server,
//! takes the answers, and changes the cache accordingly.
//!
//! - `text`, `order`, `number`, `table`: texts, their order, decimal
//!   numbers, and tables of rows.
//! - `message`, `schema`, `store`: the records, what a well-formed cache is,
//!   and the cache with its operations.
//! - `registry`, `retry`: the sessions of this process, and when a failed
//!   operation is driven once more.
//! - `sync`, `update`, `reconcile`: the decisions of a mailbox update, the
//!   update as a state machine, and what an update achieves.
//! - `flags`, `mime`, `envelope`, `fetch_mode`, `sequence_set`: flag
//!   strings, the message body parser, what a fetch returns, and what a
//!   fetch asks for.
//! - `facade`, `params`, `handlers`, `display`, `http`: the operations, and
//!   the request layer in front of them.
//! - `outside`: the calls into other crates.

pub mod display;
pub mod envelope;
pub mod error;
pub mod facade;
pub mod fetch_mode;
pub mod flags;
pub mod handlers;
pub mod http;
pub mod message;
pub mod mime;
pub mod number;
pub mod order;
pub mod outside;
pub mod params;
pub mod reconcile;
pub mod registry;
pub mod retry;
pub mod schema;
pub mod sequence_set;
pub mod store;
pub mod sync;
pub mod table;
pub mod text;
pub mod update;
