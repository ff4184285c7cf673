//! An inverted-index engine core: the concurrent document-writer pipeline
//! (per-thread segment construction, delete bookkeeping, flush scheduling,
//! ticket-ordered publication), the on-disk segment codec (headers, footers,
//! CRC-32 checksums), and the query-evaluation runtime (document iterators,
//! bulk scoring with two-phase matching, top-K collection).
//!
//! State that concurrent producers share (the process-wide delete queue, the
//! per-thread writer pool) is modelled as plainly owned data: callers that run
//! producers on several threads identify themselves by a thread-slot index and
//! drive the writer through a lock of their own.

pub mod bits;
pub mod bulk_scorer;
pub mod collector;
pub mod crc32;
pub mod delete_queue;
pub mod doc_values;
pub mod doc_writer;
pub mod codec_util;
pub mod errors;
pub mod index;
pub mod posting_iterator;
pub mod search;
pub mod store;
pub mod thread_doc_writer;

use vstd::prelude::*;

verus! {

/// A document identifier inside one segment: a non-negative 32-bit integer.
pub type DocId = i32;

} // verus!
