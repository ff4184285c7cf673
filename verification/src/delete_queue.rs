//! The pending-deletes queue: an append-only log of delete operations
//! (single terms bound to updated documents, term arrays, query arrays),
//! each tagged with the sequence number issued for it.
//!
//! A lock-free design would keep only an atomically advanced tail of a
//! linked list and let each consumer carry its own head; here the log is an
//! owned vector and a [`DeleteSlice`] is a pair of indices into it, denoting the
//! half-open window `(head, tail]` of deletes a per-thread writer has not
//! yet applied. A delete entry `(term, seq)` applies to exactly the
//! documents that carry an earlier sequence number, so the sequence number
//! issued together with an update is at once the update's position in time
//! and the bound of its delete.

use vstd::prelude::*;
use vstd::string::*;

use crate::errors::IndexError;

verus! {

/// A (field name, bytes) pair: the dictionary key used as delete predicate.
#[derive(Debug)]
pub struct Term {
    /// The field the term indexes.
    pub field: String,
    /// The term bytes within that field.
    pub bytes: Vec<u8>,
}

impl Term {
    /// The term as the specification sees it: field characters and bytes.
    pub open spec fn view_of(self) -> (Seq<char>, Seq<u8>) {
        (self.field@, self.bytes@)
    }

    /// A term for `bytes` in `field`.
    pub fn new(field: String, bytes: Vec<u8>) -> (r: Term)
        ensures
            r.field@ == field@,
            r.bytes@ == bytes@,
    {
        Term { field, bytes }
    }

    /// Whether two terms denote the same (field, bytes) pair.
    pub fn same_term(&self, other: &Term) -> (r: bool)
        ensures
            r == (self.view_of() == other.view_of()),
    {
        let fields_eq = str_eq(self.field.as_str(), other.field.as_str());
        let bytes_eq = crate::codec_util::bytes_equal(&self.bytes, other.bytes.as_slice());
        fields_eq && bytes_eq
    }
}

/// Whether two byte slices hold the same bytes.
pub fn slice_eq(a: &[u8], b: &[u8]) -> (r: bool)
    ensures
        r == (a@ == b@),
{
    if a.len() != b.len() {
        proof {
            assert(a@.len() != b@.len());
        }
        return false;
    }
    let n = a.len();
    let mut i: usize = 0;
    while i < n
        invariant
            0 <= i <= n,
            n == a@.len() == b@.len(),
            forall|k: int| 0 <= k < i ==> a@[k] == b@[k],
        decreases n - i,
    {
        if a[i] != b[i] {
            return false;
        }
        i = i + 1;
    }
    proof {
        assert(a@ =~= b@);
    }
    true
}

/// Whether two strings hold the same characters.
pub fn str_eq(a: &str, b: &str) -> (r: bool)
    ensures
        r == (a@ == b@),
{
    let r = slice_eq(a.as_bytes(), b.as_bytes());
    proof {
        vstd::utf8::encode_utf8_decode_utf8(a@);
        vstd::utf8::encode_utf8_decode_utf8(b@);
    }
    r
}

impl Clone for Term {
    /// A copy denoting the same (field, bytes) pair.
    fn clone(&self) -> (r: Self)
        ensures
            r.view_of() == self.view_of(),
    {
        Term { field: self.field.clone(), bytes: clone_bytes(&self.bytes) }
    }
}

/// A copy of a byte vector with the same contents.
pub fn clone_bytes(v: &Vec<u8>) -> (r: Vec<u8>)
    ensures
        r@ == v@,
{
    let mut out: Vec<u8> = Vec::new();
    let n = v.len();
    let mut i: usize = 0;
    while i < n
        invariant
            0 <= i <= n,
            n == v@.len(),
            out@ == v@.take(i as int),
        decreases n - i,
    {
        out.push(v[i]);
        proof {
            assert(out@ =~= v@.take(i + 1));
        }
        i = i + 1;
    }
    proof {
        assert(out@ =~= v@);
    }
    out
}

/// One delete operation in the log.
pub enum DeleteNode {
    /// A single term, bound to an updated document.
    SingleTerm(Term),
    /// Delete every document holding any of these terms.
    TermArray(Vec<Term>),
    /// Delete every document matching any of these queries, carried by
    /// their textual form.
    QueryArray(Vec<String>),
    /// The initial tail; never applied.
    Sentinel,
}

/// A log entry: the operation and the sequence number issued for it.
pub struct QueueNode {
    /// The delete operation.
    pub node: DeleteNode,
    /// The sequence number issued together with it.
    pub seq: u64,
}

/// A term as the specification sees it: field characters and bytes.
pub type TermLiteral = (Seq<char>, Seq<u8>);

/// The views of a vector of (term, bound) pairs.
pub open spec fn term_entry_views(s: Seq<(Term, u64)>) -> Seq<(TermLiteral, u64)> {
    s.map_values(|p: (Term, u64)| (p.0.view_of(), p.1))
}

/// The views of a vector of (query, bound) pairs.
pub open spec fn query_entry_views(s: Seq<(String, u64)>) -> Seq<(Seq<char>, u64)> {
    s.map_values(|p: (String, u64)| (p.0@, p.1))
}

/// The term deletes one log entry contributes: each term paired with the
/// entry's sequence number.
pub open spec fn node_term_deletes(qn: QueueNode) -> Seq<(TermLiteral, u64)> {
    match qn.node {
        DeleteNode::SingleTerm(t) => seq![(t.view_of(), qn.seq)],
        DeleteNode::TermArray(v) => v@.map_values(|t: Term| (t.view_of(), qn.seq)),
        DeleteNode::QueryArray(_) => Seq::empty(),
        DeleteNode::Sentinel => Seq::empty(),
    }
}

/// The query deletes one log entry contributes.
pub open spec fn node_query_deletes(qn: QueueNode) -> Seq<(Seq<char>, u64)> {
    match qn.node {
        DeleteNode::QueryArray(v) => v@.map_values(|q: String| (q@, qn.seq)),
        _ => Seq::empty(),
    }
}

/// The term deletes of the window `(head, tail]` of the log, in log order.
pub open spec fn window_term_deletes(nodes: Seq<QueueNode>, head: int, tail: int) -> Seq<
    (TermLiteral, u64),
>
    decreases tail - head,
{
    if tail <= head {
        Seq::empty()
    } else {
        window_term_deletes(nodes, head, tail - 1) + node_term_deletes(nodes[tail])
    }
}

/// The query deletes of the window `(head, tail]` of the log, in log order.
pub open spec fn window_query_deletes(nodes: Seq<QueueNode>, head: int, tail: int) -> Seq<
    (Seq<char>, u64),
>
    decreases tail - head,
{
    if tail <= head {
        Seq::empty()
    } else {
        window_query_deletes(nodes, head, tail - 1) + node_query_deletes(nodes[tail])
    }
}

/// A thread-captive window `(head, tail]` into the delete log: the deletes a
/// per-thread writer has seen but not yet applied to its private buffer.
pub struct DeleteSlice {
    head: usize,
    tail: usize,
}

impl DeleteSlice {
    /// The index the window opens after.
    pub closed spec fn head_spec(&self) -> int {
        self.head as int
    }

    /// The index the window closes at.
    pub closed spec fn tail_spec(&self) -> int {
        self.tail as int
    }

    /// A window is well-formed within a log of `n` entries.
    pub open spec fn wf(&self, n: int) -> bool {
        0 <= self.head_spec() <= self.tail_spec() < n
    }

    /// Whether the window holds nothing.
    pub fn is_empty(&self) -> (r: bool)
        ensures
            r == (self.head_spec() == self.tail_spec()),
    {
        self.head == self.tail
    }

    /// Empties the window without applying it.
    pub fn reset(&mut self)
        ensures
            final(self).head_spec() == old(self).tail_spec(),
            final(self).tail_spec() == old(self).tail_spec(),
    {
        self.head = self.tail;
    }
}

/// Accumulated deletes awaiting application to one segment (a per-thread
/// writer's private buffer) or to all prior segments (the global buffer).
/// Each entry applies to exactly the documents with a smaller sequence
/// number.
pub struct BufferedUpdates {
    terms: Vec<(Term, u64)>,
    queries: Vec<(String, u64)>,
}

impl BufferedUpdates {
    /// The buffered term deletes, by view, in arrival order.
    pub closed spec fn terms_spec(&self) -> Seq<(TermLiteral, u64)> {
        term_entry_views(self.terms@)
    }

    /// The buffered query deletes, by view, in arrival order.
    pub closed spec fn queries_spec(&self) -> Seq<(Seq<char>, u64)> {
        query_entry_views(self.queries@)
    }

    /// An empty buffer.
    pub fn new() -> (r: BufferedUpdates)
        ensures
            r.terms_spec() == Seq::<(TermLiteral, u64)>::empty(),
            r.queries_spec() == Seq::<(Seq<char>, u64)>::empty(),
    {
        let r = BufferedUpdates { terms: Vec::new(), queries: Vec::new() };
        proof {
            assert(r.terms_spec() =~= Seq::<(TermLiteral, u64)>::empty());
            assert(r.queries_spec() =~= Seq::<(Seq<char>, u64)>::empty());
        }
        r
    }

    /// Buffers one term delete bounded by `seq`.
    pub fn add_term(&mut self, term: Term, seq: u64)
        ensures
            final(self).terms_spec() == old(self).terms_spec().push((term.view_of(), seq)),
            final(self).queries_spec() == old(self).queries_spec(),
    {
        self.terms.push((term, seq));
        proof {
            assert(final(self).terms_spec() =~= old(self).terms_spec().push(
                (self.terms@.last().0.view_of(), seq),
            ));
            assert(final(self).queries_spec() =~= old(self).queries_spec());
        }
    }

    /// Buffers one query delete bounded by `seq`.
    pub fn add_query(&mut self, query: String, seq: u64)
        ensures
            final(self).queries_spec() == old(self).queries_spec().push((query@, seq)),
            final(self).terms_spec() == old(self).terms_spec(),
    {
        self.queries.push((query, seq));
        proof {
            assert(final(self).queries_spec() =~= old(self).queries_spec().push(
                (self.queries@.last().0@, seq),
            ));
            assert(final(self).terms_spec() =~= old(self).terms_spec());
        }
    }

    /// Whether anything is buffered.
    pub fn any(&self) -> (r: bool)
        ensures
            r == (self.terms_spec().len() > 0 || self.queries_spec().len() > 0),
    {
        self.terms.len() > 0 || self.queries.len() > 0
    }

    /// How many term deletes are buffered.
    pub fn num_term_deletes(&self) -> (r: usize)
        ensures
            r == self.terms_spec().len(),
    {
        self.terms.len()
    }

    /// The buffered term deletes, for application to documents.
    pub fn term_entries(&self) -> (r: &Vec<(Term, u64)>)
        ensures
            term_entry_views(r@) == self.terms_spec(),
    {
        &self.terms
    }

    /// Drops everything buffered.
    pub fn clear(&mut self)
        ensures
            final(self).terms_spec() == Seq::<(TermLiteral, u64)>::empty(),
            final(self).queries_spec() == Seq::<(Seq<char>, u64)>::empty(),
    {
        self.terms.clear();
        self.queries.clear();
        proof {
            assert(final(self).terms_spec() =~= Seq::<(TermLiteral, u64)>::empty());
            assert(final(self).queries_spec() =~= Seq::<(Seq<char>, u64)>::empty());
        }
    }

    /// A coarse estimate of the memory the buffer holds, counting a fixed
    /// cost per entry and saturating at the top of the range.
    pub fn bytes_used(&self) -> (r: u64)
        ensures
            r as int == if self.terms_spec().len() * 104 + self.queries_spec().len() * 72
                <= u64::MAX {
                (self.terms_spec().len() * 104 + self.queries_spec().len() * 72) as int
            } else {
                u64::MAX as int
            },
    {
        let t = self.terms.len() as u64;
        let q = self.queries.len() as u64;
        let tc: u64 = if t <= 0xFFFF_FFFF_FFFF_FFFFu64 / 104 {
            t * 104
        } else {
            u64::MAX
        };
        let qc: u64 = if q <= 0xFFFF_FFFF_FFFF_FFFFu64 / 72 {
            q * 72
        } else {
            u64::MAX
        };
        if tc <= u64::MAX - qc {
            tc + qc
        } else {
            u64::MAX
        }
    }
}

} // verus!

verus! {

/// The process-wide pending-deletes queue of one writer: an append-only log
/// of delete operations with a sentinel first entry, the global window and
/// buffer for deletes against already written segments, and the sequence
/// counter that totally orders every operation.
pub struct DocumentsWriterDeleteQueue {
    nodes: Vec<QueueNode>,
    global_slice: DeleteSlice,
    global_buffered_updates: BufferedUpdates,
    /// Which swap-in round of the writer this queue belongs to.
    pub generation: u64,
    next_seq_no: u64,
    issued: Ghost<Seq<u64>>,
}

impl DocumentsWriterDeleteQueue {
    /// The delete log, sentinel first.
    pub closed spec fn nodes_spec(&self) -> Seq<QueueNode> {
        self.nodes@
    }

    /// The next sequence number to issue.
    pub closed spec fn next_seq_spec(&self) -> int {
        self.next_seq_no as int
    }

    /// Which swap-in round of the writer this queue belongs to.
    pub closed spec fn generation_spec(&self) -> u64 {
        self.generation
    }

    /// Every sequence number issued so far, in issue order.
    pub closed spec fn issued_spec(&self) -> Seq<u64> {
        self.issued@
    }

    /// The global window into the log.
    pub closed spec fn global_slice_spec(&self) -> DeleteSlice {
        self.global_slice
    }

    /// The global buffer of deletes against already written segments.
    pub closed spec fn global_buffer(&self) -> &BufferedUpdates {
        &self.global_buffered_updates
    }

    /// Well-formedness: the log opens with the sentinel, the global window
    /// lies inside it, issued sequence numbers are strictly increasing and
    /// below the counter, and so are the log entries' numbers.
    pub closed spec fn wf(&self) -> bool {
        &&& self.nodes@.len() >= 1
        &&& self.nodes@[0].node is Sentinel
        &&& self.global_slice.wf(self.nodes@.len() as int)
        &&& forall|i: int, j: int|
            0 <= i < j < self.issued@.len() ==> self.issued@[i] < self.issued@[j]
        &&& forall|i: int| 0 <= i < self.issued@.len() ==> #[trigger] self.issued@[i]
            < self.next_seq_no
        &&& forall|i: int, j: int|
            1 <= i < j < self.nodes@.len() ==> self.nodes@[i].seq < self.nodes@[j].seq
        &&& forall|i: int| 1 <= i < self.nodes@.len() ==> #[trigger] self.nodes@[i].seq
            < self.next_seq_no
        &&& self.next_seq_no >= 1
    }

    /// What well-formedness guarantees that callers outside this module
    /// need: the log opens with the sentinel, the global window lies inside
    /// it, and the counter stays at least one.
    pub proof fn lemma_wf_facts(&self)
        requires
            self.wf(),
        ensures
            self.nodes_spec().len() >= 1,
            self.next_seq_spec() >= 1,
            self.next_seq_spec() <= u64::MAX,
            0 <= self.global_slice_spec().head_spec() <= self.global_slice_spec().tail_spec()
                < self.nodes_spec().len(),
            self.nodes_spec()[0].node is Sentinel,
    {
    }

    /// A fresh queue for generation zero, issuing numbers from one. The
    /// count starts at one because some callers negate a number to carry a
    /// flag beside it.
    pub fn default_queue() -> (r: DocumentsWriterDeleteQueue)
        ensures
            r.wf(),
            r.generation_spec() == 0,
            r.nodes_spec().len() == 1,
            r.next_seq_spec() == 1,
            r.issued_spec() == Seq::<u64>::empty(),
            r.global_buffer().terms_spec() == Seq::<(TermLiteral, u64)>::empty(),
            r.global_slice_spec().head_spec() == 0,
            r.global_slice_spec().tail_spec() == 0,
            r.nodes_spec()[0] == (QueueNode { node: DeleteNode::Sentinel, seq: 0u64 }),
    {
        Self::with_generation(0, 1)
    }

    /// A fresh queue for a generation, issuing numbers from `start_seq_no`.
    pub fn with_generation(generation: u64, start_seq_no: u64) -> (r: DocumentsWriterDeleteQueue)
        requires
            start_seq_no >= 1,
        ensures
            r.wf(),
            r.generation_spec() == generation,
            r.nodes_spec().len() == 1,
            r.next_seq_spec() == start_seq_no,
            r.issued_spec() == Seq::<u64>::empty(),
            r.global_buffer().terms_spec() == Seq::<(TermLiteral, u64)>::empty(),
            r.global_buffer().queries_spec() == Seq::<(Seq<char>, u64)>::empty(),
            r.global_slice_spec().head_spec() == 0,
            r.global_slice_spec().tail_spec() == 0,
            r.nodes_spec()[0] == (QueueNode { node: DeleteNode::Sentinel, seq: 0u64 }),
    {
        Self::new(BufferedUpdates::new(), generation, start_seq_no)
    }

    /// A fresh queue around an existing (empty or pre-seeded) global buffer.
    pub fn new(
        global_buffered_updates: BufferedUpdates,
        generation: u64,
        start_seq_no: u64,
    ) -> (r: DocumentsWriterDeleteQueue)
        requires
            start_seq_no >= 1,
        ensures
            r.wf(),
            r.generation_spec() == generation,
            r.nodes_spec().len() == 1,
            r.next_seq_spec() == start_seq_no,
            r.issued_spec() == Seq::<u64>::empty(),
            r.global_buffer().terms_spec() == global_buffered_updates.terms_spec(),
            r.global_buffer().queries_spec() == global_buffered_updates.queries_spec(),
            r.global_slice_spec().head_spec() == 0,
            r.global_slice_spec().tail_spec() == 0,
            r.nodes_spec()[0] == (QueueNode { node: DeleteNode::Sentinel, seq: 0u64 }),
    {
        let mut nodes: Vec<QueueNode> = Vec::new();
        nodes.push(QueueNode { node: DeleteNode::Sentinel, seq: 0 });
        DocumentsWriterDeleteQueue {
            nodes,
            global_slice: DeleteSlice { head: 0, tail: 0 },
            global_buffered_updates,
            generation,
            next_seq_no: start_seq_no,
            issued: Ghost(Seq::empty()),
        }
    }

    /// Issues the next sequence number.
    pub fn next_sequence_number(&mut self) -> (r: u64)
        requires
            old(self).wf(),
            old(self).next_seq_spec() < u64::MAX,
        ensures
            final(self).wf(),
            r as int == old(self).next_seq_spec(),
            final(self).next_seq_spec() == old(self).next_seq_spec() + 1,
            final(self).issued_spec() == old(self).issued_spec().push(r),
            final(self).nodes_spec() == old(self).nodes_spec(),
            final(self).global_slice_spec() == old(self).global_slice_spec(),
            final(self).global_buffer().terms_spec() == old(self).global_buffer().terms_spec(),
            final(self).global_buffer().queries_spec() == old(self).global_buffer().queries_spec(),
            final(self).generation_spec() == old(self).generation_spec(),
    {
        let no = self.next_seq_no;
        self.next_seq_no = self.next_seq_no + 1;
        proof {
            self.issued@ = self.issued@.push(no);
        }
        no
    }

    /// Which swap-in round of the writer this queue belongs to.
    pub fn generation(&self) -> (r: u64)
        ensures
            r == self.generation_spec(),
    {
        self.generation
    }

    /// The last issued sequence number.
    pub fn last_sequence_number(&self) -> (r: u64)
        requires
            self.wf(),
        ensures
            r as int == self.next_seq_spec() - 1,
    {
        self.next_seq_no - 1
    }

    /// Reserves a gap of `jump` numbers, so in-flight operations that were
    /// never completed cannot collide with later ones.
    pub fn skip_sequence_number(&mut self, jump: u64)
        requires
            old(self).wf(),
            old(self).next_seq_spec() + jump <= u64::MAX,
        ensures
            final(self).wf(),
            final(self).next_seq_spec() == old(self).next_seq_spec() + jump,
            final(self).nodes_spec() == old(self).nodes_spec(),
            final(self).issued_spec() == old(self).issued_spec(),
            final(self).global_slice_spec() == old(self).global_slice_spec(),
            final(self).global_buffer().terms_spec() == old(self).global_buffer().terms_spec(),
            final(self).global_buffer().queries_spec() == old(self).global_buffer().queries_spec(),
            final(self).generation_spec() == old(self).generation_spec(),
    {
        self.next_seq_no = self.next_seq_no + jump;
    }

    /// Appends one operation to the log, issuing its sequence number.
    fn add_node(&mut self, node: DeleteNode) -> (r: u64)
        requires
            old(self).wf(),
            old(self).next_seq_spec() < u64::MAX,
            !(node is Sentinel),
        ensures
            final(self).wf(),
            r as int == old(self).next_seq_spec(),
            final(self).next_seq_spec() == old(self).next_seq_spec() + 1,
            final(self).issued_spec() == old(self).issued_spec().push(r),
            final(self).nodes_spec() == old(self).nodes_spec().push(QueueNode { node, seq: r }),
            final(self).global_slice_spec() == old(self).global_slice_spec(),
            final(self).global_buffer().terms_spec() == old(self).global_buffer().terms_spec(),
            final(self).global_buffer().queries_spec() == old(self).global_buffer().queries_spec(),
            final(self).generation_spec() == old(self).generation_spec(),
    {
        let no = self.next_sequence_number();
        self.nodes.push(QueueNode { node, seq: no });
        no
    }

    /// A fresh window opening at the current end of the log.
    pub fn new_slice(&self) -> (r: DeleteSlice)
        requires
            self.wf(),
        ensures
            r.head_spec() == self.nodes_spec().len() - 1,
            r.tail_spec() == self.nodes_spec().len() - 1,
    {
        DeleteSlice { head: self.nodes.len() - 1, tail: self.nodes.len() - 1 }
    }

    /// Issues a sequence number and advances the window to the current end
    /// of the log, reporting whether new deletes had arrived.
    pub fn update_slice(&mut self, slice: &mut DeleteSlice) -> (r: (u64, bool))
        requires
            old(self).wf(),
            old(self).next_seq_spec() < u64::MAX,
            old(slice).wf(old(self).nodes_spec().len() as int),
        ensures
            final(self).wf(),
            final(slice).wf(final(self).nodes_spec().len() as int),
            r.0 as int == old(self).next_seq_spec(),
            final(self).next_seq_spec() == old(self).next_seq_spec() + 1,
            final(self).issued_spec() == old(self).issued_spec().push(r.0),
            final(self).nodes_spec() == old(self).nodes_spec(),
            final(self).global_slice_spec() == old(self).global_slice_spec(),
            final(self).global_buffer().terms_spec() == old(self).global_buffer().terms_spec(),
            final(self).global_buffer().queries_spec() == old(self).global_buffer().queries_spec(),
            final(slice).head_spec() == old(slice).head_spec(),
            final(slice).tail_spec() == final(self).nodes_spec().len() - 1,
            r.1 == (old(slice).tail_spec() != old(self).nodes_spec().len() - 1),
            final(self).generation_spec() == old(self).generation_spec(),
    {
        let seq_no = self.next_sequence_number();
        let last = self.nodes.len() - 1;
        if slice.tail != last {
            slice.tail = last;
            (seq_no, true)
        } else {
            (seq_no, false)
        }
    }

    /// Appends a single-term delete and atomically makes it the new end of
    /// the caller's window, so the term is bound to the document being
    /// updated: of two racing updates with the same term, each sees the
    /// other's delete when it next applies its window, and exactly one
    /// document survives.
    pub fn add_term_to_slice(&mut self, term: Term, slice: &mut DeleteSlice) -> (r: Result<
        u64,
        IndexError,
    >)
        requires
            old(self).wf(),
            old(self).next_seq_spec() < u64::MAX,
            old(slice).wf(old(self).nodes_spec().len() as int),
        ensures
            final(self).wf(),
            final(slice).wf(final(self).nodes_spec().len() as int),
            r matches Ok(seq) && seq as int == old(self).next_seq_spec(),
            final(self).next_seq_spec() == old(self).next_seq_spec() + 1,
            final(self).issued_spec() == old(self).issued_spec().push(
                (old(self).next_seq_spec()) as u64,
            ),
            final(self).nodes_spec() == old(self).nodes_spec().push(
                QueueNode {
                    node: DeleteNode::SingleTerm(term),
                    seq: (old(self).next_seq_spec()) as u64,
                },
            ),
            final(slice).head_spec() == old(slice).head_spec(),
            final(slice).tail_spec() == final(self).nodes_spec().len() - 1,
            final(self).generation_spec() == old(self).generation_spec(),
            final(self).global_slice_spec().head_spec() == final(self).nodes_spec().len() - 1,
            final(self).global_slice_spec().tail_spec() == final(self).nodes_spec().len() - 1,
            final(self).global_buffer().terms_spec() == old(self).global_buffer().terms_spec()
                + window_term_deletes(
                final(self).nodes_spec(),
                old(self).global_slice_spec().head_spec(),
                final(self).nodes_spec().len() - 1,
            ),
            final(self).global_buffer().queries_spec() == old(self).global_buffer().queries_spec()
                + window_query_deletes(
                final(self).nodes_spec(),
                old(self).global_slice_spec().head_spec(),
                final(self).nodes_spec().len() - 1,
            ),
    {
        let seq_no = self.add_node(DeleteNode::SingleTerm(term));
        slice.tail = self.nodes.len() - 1;
        self.try_apply_global_slice();
        Ok(seq_no)
    }

    /// Appends a delete for every document holding any of `terms`.
    pub fn add_delete_terms(&mut self, terms: Vec<Term>) -> (r: Result<u64, IndexError>)
        requires
            old(self).wf(),
            old(self).next_seq_spec() < u64::MAX,
        ensures
            final(self).wf(),
            r matches Ok(seq) && seq as int == old(self).next_seq_spec(),
            final(self).next_seq_spec() == old(self).next_seq_spec() + 1,
            final(self).issued_spec() == old(self).issued_spec().push(
                (old(self).next_seq_spec()) as u64,
            ),
            final(self).nodes_spec() == old(self).nodes_spec().push(
                QueueNode {
                    node: DeleteNode::TermArray(terms),
                    seq: (old(self).next_seq_spec()) as u64,
                },
            ),
            final(self).generation_spec() == old(self).generation_spec(),
            final(self).global_slice_spec().head_spec() == final(self).nodes_spec().len() - 1,
            final(self).global_slice_spec().tail_spec() == final(self).nodes_spec().len() - 1,
            final(self).global_buffer().terms_spec() == old(self).global_buffer().terms_spec()
                + window_term_deletes(
                final(self).nodes_spec(),
                old(self).global_slice_spec().head_spec(),
                final(self).nodes_spec().len() - 1,
            ),
            final(self).global_buffer().queries_spec() == old(self).global_buffer().queries_spec()
                + window_query_deletes(
                final(self).nodes_spec(),
                old(self).global_slice_spec().head_spec(),
                final(self).nodes_spec().len() - 1,
            ),
    {
        let seq_no = self.add_node(DeleteNode::TermArray(terms));
        self.try_apply_global_slice();
        Ok(seq_no)
    }

    /// Appends a delete for every document matching any of `queries`.
    pub fn add_delete_queries(&mut self, queries: Vec<String>) -> (r: Result<u64, IndexError>)
        requires
            old(self).wf(),
            old(self).next_seq_spec() < u64::MAX,
        ensures
            final(self).wf(),
            r matches Ok(seq) && seq as int == old(self).next_seq_spec(),
            final(self).next_seq_spec() == old(self).next_seq_spec() + 1,
            final(self).issued_spec() == old(self).issued_spec().push(
                (old(self).next_seq_spec()) as u64,
            ),
            final(self).nodes_spec() == old(self).nodes_spec().push(
                QueueNode {
                    node: DeleteNode::QueryArray(queries),
                    seq: (old(self).next_seq_spec()) as u64,
                },
            ),
            final(self).generation_spec() == old(self).generation_spec(),
            final(self).global_slice_spec().head_spec() == final(self).nodes_spec().len() - 1,
            final(self).global_slice_spec().tail_spec() == final(self).nodes_spec().len() - 1,
            final(self).global_buffer().terms_spec() == old(self).global_buffer().terms_spec()
                + window_term_deletes(
                final(self).nodes_spec(),
                old(self).global_slice_spec().head_spec(),
                final(self).nodes_spec().len() - 1,
            ),
            final(self).global_buffer().queries_spec() == old(self).global_buffer().queries_spec()
                + window_query_deletes(
                final(self).nodes_spec(),
                old(self).global_slice_spec().head_spec(),
                final(self).nodes_spec().len() - 1,
            ),
    {
        let seq_no = self.add_node(DeleteNode::QueryArray(queries));
        self.try_apply_global_slice();
        Ok(seq_no)
    }

    /// Drains the global window into the global buffer: every delete the
    /// window covers lands in the buffer and the window empties at the
    /// current end of the log. (A concurrent caller would attempt this under
    /// a try-lock and may harmlessly skip it; without contention it always
    /// runs.)
    fn try_apply_global_slice(&mut self)
        requires
            old(self).wf(),
        ensures
            final(self).wf(),
            final(self).nodes_spec() == old(self).nodes_spec(),
            final(self).next_seq_spec() == old(self).next_seq_spec(),
            final(self).issued_spec() == old(self).issued_spec(),
            final(self).global_slice_spec().head_spec() == final(self).nodes_spec().len() - 1,
            final(self).global_slice_spec().tail_spec() == final(self).nodes_spec().len() - 1,
            final(self).global_buffer().terms_spec() == old(self).global_buffer().terms_spec()
                + window_term_deletes(
                old(self).nodes_spec(),
                old(self).global_slice_spec().head_spec(),
                old(self).nodes_spec().len() - 1,
            ),
            final(self).global_buffer().queries_spec() == old(self).global_buffer().queries_spec()
                + window_query_deletes(
                old(self).nodes_spec(),
                old(self).global_slice_spec().head_spec(),
                old(self).nodes_spec().len() - 1,
            ),
            final(self).generation_spec() == old(self).generation_spec(),
    {
        let last = self.nodes.len() - 1;
        if self.global_slice.tail != last {
            self.global_slice.tail = last;
        }
        apply_window(
            &self.nodes,
            &mut self.global_slice,
            &mut self.global_buffered_updates,
        );
    }

    /// Freezes the global buffer for a flush: advances the global window to
    /// the current end of the log, drains it into the buffer, hands the
    /// buffer over as a frozen packet, and clears it. Every delete up to the
    /// freeze is then bound to the flush being published.
    pub fn freeze_global_buffer(&mut self) -> (r: FrozenBufferedUpdates)
        requires
            old(self).wf(),
        ensures
            final(self).wf(),
            final(self).nodes_spec() == old(self).nodes_spec(),
            final(self).next_seq_spec() == old(self).next_seq_spec(),
            final(self).issued_spec() == old(self).issued_spec(),
            final(self).global_slice_spec().head_spec() == final(self).nodes_spec().len() - 1,
            final(self).global_slice_spec().tail_spec() == final(self).nodes_spec().len() - 1,
            final(self).global_buffer().terms_spec() == Seq::<(TermLiteral, u64)>::empty(),
            final(self).global_buffer().queries_spec() == Seq::<(Seq<char>, u64)>::empty(),
            term_entry_views(r.terms@) == old(self).global_buffer().terms_spec() + window_term_deletes(
                old(self).nodes_spec(),
                old(self).global_slice_spec().head_spec(),
                old(self).nodes_spec().len() - 1,
            ),
            query_entry_views(r.queries@) == old(self).global_buffer().queries_spec() + window_query_deletes(
                old(self).nodes_spec(),
                old(self).global_slice_spec().head_spec(),
                old(self).nodes_spec().len() - 1,
            ),
            r.generation == old(self).generation_spec(),
            final(self).generation_spec() == old(self).generation_spec(),
    {
        self.try_apply_global_slice();
        let mut packet_terms: Vec<(Term, u64)> = Vec::new();
        let mut packet_queries: Vec<(String, u64)> = Vec::new();
        std::mem::swap(&mut packet_terms, &mut self.global_buffered_updates.terms);
        std::mem::swap(&mut packet_queries, &mut self.global_buffered_updates.queries);
        proof {
            assert(self.global_buffered_updates.terms_spec() =~= Seq::<(
                TermLiteral,
                u64,
            )>::empty());
            assert(self.global_buffered_updates.queries_spec() =~= Seq::<(
                Seq<char>,
                u64,
            )>::empty());
        }
        FrozenBufferedUpdates {
            terms: packet_terms,
            queries: packet_queries,
            generation: self.generation,
        }
    }

    /// Freezes the global buffer and also advances a flushing writer's own
    /// window to the current end of the log, so the writer's final window
    /// application covers everything up to the freeze.
    pub fn freeze_global_buffer_with_slice(&mut self, caller_slice: &mut DeleteSlice) -> (r:
        FrozenBufferedUpdates)
        requires
            old(self).wf(),
            old(caller_slice).wf(old(self).nodes_spec().len() as int),
        ensures
            final(self).wf(),
            final(self).nodes_spec() == old(self).nodes_spec(),
            final(self).next_seq_spec() == old(self).next_seq_spec(),
            final(self).issued_spec() == old(self).issued_spec(),
            final(self).global_slice_spec().head_spec() == final(self).nodes_spec().len() - 1,
            final(self).global_slice_spec().tail_spec() == final(self).nodes_spec().len() - 1,
            final(self).global_buffer().terms_spec() == Seq::<(TermLiteral, u64)>::empty(),
            final(self).global_buffer().queries_spec() == Seq::<(Seq<char>, u64)>::empty(),
            term_entry_views(r.terms@) == old(self).global_buffer().terms_spec() + window_term_deletes(
                old(self).nodes_spec(),
                old(self).global_slice_spec().head_spec(),
                old(self).nodes_spec().len() - 1,
            ),
            query_entry_views(r.queries@) == old(self).global_buffer().queries_spec() + window_query_deletes(
                old(self).nodes_spec(),
                old(self).global_slice_spec().head_spec(),
                old(self).nodes_spec().len() - 1,
            ),
            r.generation == old(self).generation_spec(),
            final(caller_slice).head_spec() == old(caller_slice).head_spec(),
            final(caller_slice).tail_spec() == final(self).nodes_spec().len() - 1,
            final(caller_slice).wf(final(self).nodes_spec().len() as int),
            final(self).generation_spec() == old(self).generation_spec(),
    {
        caller_slice.tail = self.nodes.len() - 1;
        self.freeze_global_buffer()
    }

    /// Resets the global window to the current end of the log without
    /// applying it; used on full aborts.
    pub fn clear(&mut self) -> (r: Result<(), IndexError>)
        requires
            old(self).wf(),
        ensures
            final(self).wf(),
            r is Ok,
            final(self).nodes_spec() == old(self).nodes_spec(),
            final(self).next_seq_spec() == old(self).next_seq_spec(),
            final(self).issued_spec() == old(self).issued_spec(),
            final(self).global_slice_spec().head_spec() == final(self).nodes_spec().len() - 1,
            final(self).global_slice_spec().tail_spec() == final(self).nodes_spec().len() - 1,
            final(self).global_buffer().terms_spec() == old(self).global_buffer().terms_spec(),
            final(self).global_buffer().queries_spec() == old(self).global_buffer().queries_spec(),
            final(self).generation_spec() == old(self).generation_spec(),
    {
        let last = self.nodes.len() - 1;
        self.global_slice.head = last;
        self.global_slice.tail = last;
        Ok(())
    }

    /// Whether any deletes are pending anywhere: buffered globally, or in
    /// the log beyond the global window.
    pub fn any_changes(&self) -> (r: bool)
        requires
            self.wf(),
        ensures
            r == (self.global_buffer().terms_spec().len() > 0 || self.global_buffer().queries_spec().len()
                > 0 || self.global_slice_spec().head_spec() != self.global_slice_spec().tail_spec()
                || self.global_slice_spec().tail_spec() != self.nodes_spec().len() - 1),
    {
        self.global_buffered_updates.any() || self.global_slice.head != self.global_slice.tail
            || self.global_slice.tail != self.nodes.len() - 1
    }

    /// A coarse estimate of the memory the global buffer holds.
    pub fn ram_bytes_used(&self) -> (r: u64)
        requires
            self.wf(),
        ensures
            r as int == if self.global_buffer().terms_spec().len() * 104
                + self.global_buffer().queries_spec().len() * 72 <= u64::MAX {
                (self.global_buffer().terms_spec().len() * 104
                    + self.global_buffer().queries_spec().len() * 72) as int
            } else {
                u64::MAX as int
            },
    {
        self.global_buffered_updates.bytes_used()
    }

    /// How many term deletes the global buffer holds.
    pub fn num_global_term_deletes(&self) -> (r: usize)
        requires
            self.wf(),
        ensures
            r == self.global_buffer().terms_spec().len(),
    {
        self.global_buffered_updates.num_term_deletes()
    }

    /// Applies a window of this queue's log into a buffer: used by the
    /// per-thread writers on their private windows.
    pub fn apply_slice(
        &self,
        slice: &mut DeleteSlice,
        buffered_deletes: &mut BufferedUpdates,
    )
        requires
            self.wf(),
            old(slice).wf(self.nodes_spec().len() as int),
        ensures
            final(slice).head_spec() == old(slice).tail_spec(),
            final(slice).tail_spec() == old(slice).tail_spec(),
            final(slice).wf(self.nodes_spec().len() as int),
            final(buffered_deletes).terms_spec() == old(buffered_deletes).terms_spec()
                + window_term_deletes(
                self.nodes_spec(),
                old(slice).head_spec(),
                old(slice).tail_spec(),
            ),
            final(buffered_deletes).queries_spec() == old(buffered_deletes).queries_spec()
                + window_query_deletes(
                self.nodes_spec(),
                old(slice).head_spec(),
                old(slice).tail_spec(),
            ),
    {
        apply_window(&self.nodes, slice, buffered_deletes);
    }
}

/// Law: sequence numbers are strictly increasing and unique across every
/// operation on a writer's queue. Each operation pushes the number it issued
/// onto the issue log, and a well-formed queue's issue log is strictly
/// increasing, so no two operations ever receive the same number and later
/// operations always receive larger ones.
pub proof fn lemma_sequence_numbers_strictly_increase(q: DocumentsWriterDeleteQueue)
    requires
        q.wf(),
    ensures
        forall|i: int, j: int|
            0 <= i < j < q.issued_spec().len() ==> q.issued_spec()[i] < q.issued_spec()[j],
        forall|i: int, j: int|
            0 <= i < q.issued_spec().len() && 0 <= j < q.issued_spec().len() && i != j
                ==> q.issued_spec()[i] != q.issued_spec()[j],
{
    assert(q.wf());
}

/// A frozen packet of global deletes, bound at a flush to the segments
/// published before it.
pub struct FrozenBufferedUpdates {
    /// The frozen term deletes.
    pub terms: Vec<(Term, u64)>,
    /// The frozen query deletes.
    pub queries: Vec<(String, u64)>,
    /// The queue generation the packet was frozen from.
    pub generation: u64,
}

impl FrozenBufferedUpdates {
    /// Whether the packet holds any deletes.
    pub fn any_changes(&self) -> (r: bool)
        ensures
            r == (self.terms@.len() > 0 || self.queries@.len() > 0),
    {
        self.terms.len() > 0 || self.queries.len() > 0
    }
}

/// Drains the window `(head, tail]` of `nodes` into `buffered`, entry by
/// entry in log order, and resets the window.
fn apply_window(
    nodes: &Vec<QueueNode>,
    slice: &mut DeleteSlice,
    buffered: &mut BufferedUpdates,
)
    requires
        old(slice).wf(nodes@.len() as int),
    ensures
        final(slice).head_spec() == old(slice).tail_spec(),
        final(slice).tail_spec() == old(slice).tail_spec(),
        final(buffered).terms_spec() == old(buffered).terms_spec() + window_term_deletes(
            nodes@,
            old(slice).head_spec(),
            old(slice).tail_spec(),
        ),
        final(buffered).queries_spec() == old(buffered).queries_spec() + window_query_deletes(
            nodes@,
            old(slice).head_spec(),
            old(slice).tail_spec(),
        ),
{
    let ghost head0 = old(slice).head_spec();
    let ghost tail0 = old(slice).tail_spec();
    let n = nodes.len();
    let mut i: usize = slice.head + 1;
    let upper = slice.tail;
    proof {
        assert(window_term_deletes(nodes@, head0, head0) =~= Seq::<(TermLiteral, u64)>::empty());
        assert(window_query_deletes(nodes@, head0, head0) =~= Seq::<(Seq<char>, u64)>::empty());
        assert(buffered.terms_spec() =~= old(buffered).terms_spec() + window_term_deletes(
            nodes@,
            head0,
            head0,
        ));
        assert(buffered.queries_spec() =~= old(buffered).queries_spec() + window_query_deletes(
            nodes@,
            head0,
            head0,
        ));
    }
    while i <= upper
        invariant
            head0 + 1 <= i as int <= tail0 + 1,
            upper as int == tail0,
            0 <= head0 <= tail0 < nodes@.len(),
            n == nodes@.len(),
            buffered.terms_spec() == old(buffered).terms_spec() + window_term_deletes(
                nodes@,
                head0,
                i as int - 1,
            ),
            buffered.queries_spec() == old(buffered).queries_spec() + window_query_deletes(
                nodes@,
                head0,
                i as int - 1,
            ),
        decreases upper + 1 - i,
    {
        let seq_no = nodes[i].seq;
        match &nodes[i].node {
            DeleteNode::SingleTerm(t) => {
                buffered.add_term(t.clone(), seq_no);
                proof {
                    assert(node_term_deletes(nodes@[i as int]) =~= seq![(t.view_of(), seq_no)]);
                    assert(node_query_deletes(nodes@[i as int]) =~= Seq::<(
                        Seq<char>,
                        u64,
                    )>::empty());
                }
            },
            DeleteNode::TermArray(terms) => {
                let ghost views = terms@.map_values(|t: Term| (t.view_of(), seq_no));
                let m = terms.len();
                let mut k: usize = 0;
                proof {
                    assert(views.take(0) =~= Seq::<(TermLiteral, u64)>::empty());
                    assert(buffered.terms_spec() =~= old(buffered).terms_spec()
                        + window_term_deletes(nodes@, head0, i as int - 1) + views.take(0));
                }
                while k < m
                    invariant
                        m == terms@.len(),
                        0 <= k <= m,
                        views == terms@.map_values(|t: Term| (t.view_of(), seq_no)),
                        buffered.queries_spec() == old(buffered).queries_spec()
                            + window_query_deletes(nodes@, head0, i as int - 1),
                        buffered.terms_spec() == old(buffered).terms_spec() + window_term_deletes(
                            nodes@,
                            head0,
                            i as int - 1,
                        ) + views.take(k as int),
                    decreases m - k,
                {
                    buffered.add_term(terms[k].clone(), seq_no);
                    proof {
                        assert(views[k as int] == (terms@[k as int].view_of(), seq_no));
                        assert(views.take(k + 1) =~= views.take(k as int).push(views[k as int]));
                        assert(buffered.terms_spec() =~= old(buffered).terms_spec()
                            + window_term_deletes(nodes@, head0, i as int - 1) + views.take(k + 1));
                    }
                    k = k + 1;
                }
                proof {
                    assert(views.take(m as int) =~= node_term_deletes(nodes@[i as int]));
                    assert(node_query_deletes(nodes@[i as int]) =~= Seq::<(
                        Seq<char>,
                        u64,
                    )>::empty());
                }
            },
            DeleteNode::QueryArray(queries) => {
                let ghost views = queries@.map_values(|q: String| (q@, seq_no));
                let m = queries.len();
                let mut k: usize = 0;
                proof {
                    assert(views.take(0) =~= Seq::<(Seq<char>, u64)>::empty());
                    assert(buffered.queries_spec() =~= old(buffered).queries_spec()
                        + window_query_deletes(nodes@, head0, i as int - 1) + views.take(0));
                }
                while k < m
                    invariant
                        m == queries@.len(),
                        0 <= k <= m,
                        views == queries@.map_values(|q: String| (q@, seq_no)),
                        buffered.terms_spec() == old(buffered).terms_spec() + window_term_deletes(
                            nodes@,
                            head0,
                            i as int - 1,
                        ),
                        buffered.queries_spec() == old(buffered).queries_spec()
                            + window_query_deletes(nodes@, head0, i as int - 1) + views.take(
                            k as int,
                        ),
                    decreases m - k,
                {
                    buffered.add_query(queries[k].clone(), seq_no);
                    proof {
                        assert(views[k as int] == (queries@[k as int]@, seq_no));
                        assert(views.take(k + 1) =~= views.take(k as int).push(views[k as int]));
                        assert(buffered.queries_spec() =~= old(buffered).queries_spec()
                            + window_query_deletes(nodes@, head0, i as int - 1) + views.take(
                            k + 1,
                        ));
                    }
                    k = k + 1;
                }
                proof {
                    assert(views.take(m as int) =~= node_query_deletes(nodes@[i as int]));
                    assert(node_term_deletes(nodes@[i as int]) =~= Seq::<(
                        TermLiteral,
                        u64,
                    )>::empty());
                }
            },
            DeleteNode::Sentinel => {
                proof {
                    assert(node_term_deletes(nodes@[i as int]) =~= Seq::<(
                        TermLiteral,
                        u64,
                    )>::empty());
                    assert(node_query_deletes(nodes@[i as int]) =~= Seq::<(
                        Seq<char>,
                        u64,
                    )>::empty());
                }
            },
        }
        proof {
            assert(buffered.terms_spec() =~= old(buffered).terms_spec() + window_term_deletes(
                nodes@,
                head0,
                i as int,
            ));
            assert(buffered.queries_spec() =~= old(buffered).queries_spec() + window_query_deletes(
                nodes@,
                head0,
                i as int,
            ));
        }
        i = i + 1;
    }
    slice.head = slice.tail;
}

} // verus!
