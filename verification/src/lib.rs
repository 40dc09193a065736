//! A small HTTP server core built on region (arena) allocation and a
//! single-threaded cooperative scheduler.
//!
//! The crate owns its whole memory budget: every collection is carved from an
//! [`arena::Allocator`] and reclaimed only in LIFO order or in bulk. On top of
//! that sit a fixed-capacity [`collection::Array`], an open-addressing
//! [`collection::HashMap`] used as the route table, and a
//! [`manager::Manager`] that drives connection tasks to completion with a
//! two-queue (waiting / ready) drain loop. Parsing of the request line and
//! formatting of responses are verified byte-level functions.

pub mod arena;
pub mod collection;
pub mod err;
pub mod http;
pub mod manager;
pub mod request;
pub mod response;
