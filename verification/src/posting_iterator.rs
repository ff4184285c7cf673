//! Posting iteration: a document iterator that can also report term
//! frequency, positions, offsets and payloads, plus the flag words a caller
//! passes to ask for those features.

use vstd::prelude::*;

use crate::errors::IndexError;
use crate::search::{seek, DocIterator, NO_MORE_DOCS};
use crate::DocId;

verus! {

/// A payload is a plain byte string.
pub type Payload = Vec<u8>;

/// Ask for no per-document features.
pub const POSTING_ITERATOR_FLAG_NONE: i16 = 0;

/// Ask for term frequencies.
pub const POSTING_ITERATOR_FLAG_FREQS: i16 = 8;

/// Ask for term positions (which includes frequencies).
pub const POSTING_ITERATOR_FLAG_POSITIONS: i16 = POSTING_ITERATOR_FLAG_FREQS | 16;

/// Ask for offsets (which includes positions).
pub const POSTING_ITERATOR_FLAG_OFFSETS: i16 = POSTING_ITERATOR_FLAG_POSITIONS | 32;

/// Ask for payloads (which includes positions).
pub const POSTING_ITERATOR_FLAG_PAYLOADS: i16 = POSTING_ITERATOR_FLAG_POSITIONS | 64;

/// Ask for everything.
pub const POSTING_ITERATOR_FLAG_ALL: i16 = POSTING_ITERATOR_FLAG_OFFSETS
    | POSTING_ITERATOR_FLAG_PAYLOADS;

/// Whether `flags` asks for every bit of `feature`.
pub fn posting_feature_requested(flags: i16, feature: i16) -> (r: bool)
    ensures
        r == ((flags & feature) == feature),
{
    (flags & feature) == feature
}

/// A document iterator over postings that can also report the current
/// document's term statistics.
pub trait PostingIterator: DocIterator {
    /// The term frequency in the current document.
    fn freq(&self) -> Result<i32, IndexError>;

    /// The next position, or a negative value if positions were not indexed.
    fn next_position(&mut self) -> Result<i32, IndexError>;

    /// The start offset of the current position, or a negative value if
    /// offsets were not indexed.
    fn start_offset(&self) -> Result<i32, IndexError>;

    /// The end offset of the current position, or a negative value if
    /// offsets were not indexed.
    fn end_offset(&self) -> Result<i32, IndexError>;

    /// The payload at the current position; empty if none was indexed.
    fn payload(&self) -> Result<Payload, IndexError>;
}

/// A posting iterator over no documents.
#[derive(Clone, Copy)]
pub struct EmptyPostingIterator {
    current: DocId,
}

impl Default for EmptyPostingIterator {
    /// A fresh empty posting iterator, not yet advanced.
    fn default() -> (r: Self)
        ensures
            r.inv(),
            r.cur() == -1,
            r.docs() == Seq::<DocId>::empty(),
    {
        EmptyPostingIterator { current: -1 }
    }
}

impl DocIterator for EmptyPostingIterator {
    closed spec fn docs(&self) -> Seq<DocId> {
        Seq::empty()
    }

    closed spec fn approx(&self) -> Seq<DocId> {
        Seq::empty()
    }

    closed spec fn cur(&self) -> int {
        self.current as int
    }

    closed spec fn inv(&self) -> bool {
        self.current == -1 || self.current == NO_MORE_DOCS
    }

    proof fn inv_facts(&self) {
    }

    closed spec fn two_phase(&self) -> bool {
        false
    }

    closed spec fn score_at(&self, doc: int) -> i64 {
        0
    }

    proof fn two_phase_facts(&self) {
    }

    fn doc_id(&self) -> (r: DocId) {
        self.current
    }

    fn next(&mut self) -> (r: Result<DocId, IndexError>) {
        self.current = NO_MORE_DOCS;
        Ok(NO_MORE_DOCS)
    }

    fn advance(&mut self, _target: DocId) -> (r: Result<DocId, IndexError>) {
        self.current = NO_MORE_DOCS;
        Ok(NO_MORE_DOCS)
    }

    fn cost(&self) -> (r: usize)
        ensures
            r == 0,
    {
        0
    }

    fn matches(&mut self) -> (r: Result<bool, IndexError>) {
        Ok(false)
    }

    fn match_cost(&self) -> u64 {
        0
    }

    fn approximate_next(&mut self) -> (r: Result<DocId, IndexError>) {
        self.current = NO_MORE_DOCS;
        Ok(NO_MORE_DOCS)
    }

    fn approximate_advance(&mut self, _target: DocId) -> (r: Result<DocId, IndexError>) {
        self.current = NO_MORE_DOCS;
        Ok(NO_MORE_DOCS)
    }
}

impl PostingIterator for EmptyPostingIterator {
    fn freq(&self) -> Result<i32, IndexError> {
        Ok(0)
    }

    fn next_position(&mut self) -> Result<i32, IndexError> {
        Ok(-1)
    }

    fn start_offset(&self) -> Result<i32, IndexError> {
        Ok(-1)
    }

    fn end_offset(&self) -> Result<i32, IndexError> {
        Ok(-1)
    }

    fn payload(&self) -> Result<Payload, IndexError> {
        Ok(Vec::new())
    }
}

} // verus!
