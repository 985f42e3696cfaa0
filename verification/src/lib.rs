//! An append-only memory store of versioned, checksummed frames, with
//! chronological traversal and hybrid full-text search over it.
//!
//! The store is described twice. [`model`] states it as a mathematical
//! log with its three writes; [`store`] holds the log in memory, with the
//! boundary between what was written and what was committed, and proves
//! each operation against the model. [`restore`] and [`container`] take a
//! log from and to bytes, [`timeline`] and [`paging`] walk it in time,
//! [`query`], [`lexical`], [`ranking`] and [`search`] find frames in it,
//! and [`tools`], [`lookup`] and [`respond`] are the requests that an
//! adapter serves from it. [`laws`] states what holds across operations.
//!
//! What the standard library and other crates compute stands behind the
//! contracts of [`encoding`] and [`tokenizer`], which are stated and not
//! proved.

pub mod checksum;
pub mod codec;
pub mod container;
pub mod cursor;
pub mod decimal;
pub mod encoding;
pub mod error;
pub mod frame;
pub mod index;
pub mod laws;
pub mod lexical;
pub mod lookup;
pub mod model;
pub mod options;
pub mod paging;
pub mod query;
pub mod ranking;
pub mod respond;
pub mod restore;
pub mod schema;
pub mod search;
pub mod store;
pub mod text;
pub mod timeline;
pub mod tokenizer;
pub mod tools;
