//! The document-writer orchestration: the glue between producers and the
//! index. It owns the delete queue, a pool of per-thread writers, the flush
//! control and the ticket queue, accepts documents and deletes, schedules
//! flushes when a writer crosses its budget, and publishes finished segments
//! to the index in ticket order.
//!
//! Producers on several operating-system threads drive one writer through a
//! lock of their own and identify themselves by a thread-slot index; the
//! writer's state transitions are sequential under that lock.

use vstd::prelude::*;
use vstd::string::*;

use crate::delete_queue::{
    term_entry_views, window_term_deletes, DocumentsWriterDeleteQueue, FrozenBufferedUpdates,
    Term, TermLiteral,
};
use crate::errors::IndexError;
use crate::index::{
    doc_deleted_by, packet_applied, Field, FlushedSegment, PublishedIndex, SegmentInfo,
    StoredDocument,
};
use crate::store::RamDirectory;
use crate::thread_doc_writer::DocumentsWriterPerThread;

verus! {

/// The decimal digits of `n`, most significant first.
pub open spec fn dec_chars(n: int) -> Seq<char>
    decreases n,
{
    if n < 10 {
        seq![digit_char(n)]
    } else {
        dec_chars(n / 10).push(digit_char(n % 10))
    }
}

/// The digit character for one decimal digit.
pub open spec fn digit_char(d: int) -> char {
    if d == 0 {
        '0'
    } else if d == 1 {
        '1'
    } else if d == 2 {
        '2'
    } else if d == 3 {
        '3'
    } else if d == 4 {
        '4'
    } else if d == 5 {
        '5'
    } else if d == 6 {
        '6'
    } else if d == 7 {
        '7'
    } else if d == 8 {
        '8'
    } else {
        '9'
    }
}

/// Appends one decimal digit to a string.
fn push_digit(s: &mut String, d: u64)
    requires
        d < 10,
    ensures
        final(s)@ == old(s)@.push(digit_char(d as int)),
{
    proof {
        reveal_strlit("0");
        reveal_strlit("1");
        reveal_strlit("2");
        reveal_strlit("3");
        reveal_strlit("4");
        reveal_strlit("5");
        reveal_strlit("6");
        reveal_strlit("7");
        reveal_strlit("8");
        reveal_strlit("9");
    }
    if d == 0 {
        s.append("0");
    } else if d == 1 {
        s.append("1");
    } else if d == 2 {
        s.append("2");
    } else if d == 3 {
        s.append("3");
    } else if d == 4 {
        s.append("4");
    } else if d == 5 {
        s.append("5");
    } else if d == 6 {
        s.append("6");
    } else if d == 7 {
        s.append("7");
    } else if d == 8 {
        s.append("8");
    } else {
        s.append("9");
    }
    proof {
        assert(final(s)@ =~= old(s)@.push(digit_char(d as int)));
    }
}

/// Appends the decimal digits of `n` to a string.
fn push_decimal(s: &mut String, n: u64)
    ensures
        final(s)@ == old(s)@ + dec_chars(n as int),
    decreases n,
{
    if n < 10 {
        push_digit(s, n);
        proof {
            assert(old(s)@ + dec_chars(n as int) =~= old(s)@.push(digit_char(n as int)));
        }
    } else {
        push_decimal(s, n / 10);
        push_digit(s, n % 10);
        proof {
            assert(final(s)@ =~= old(s)@ + dec_chars(n as int));
        }
    }
}

/// How many thread slots a writer's pool can address. Producers identify
/// themselves by a slot index below this bound, so the pool (which grows to
/// the highest index used) stays small; it is a machine limit of this model,
/// far above any realistic thread count.
pub const MAX_THREAD_SLOTS: usize = 0x1_0000;

/// The writer's configuration: the flush budgets and the codec identity.
pub struct IndexWriterConfig {
    /// Flush a per-thread writer once it buffers this many documents;
    /// zero disables the document-count trigger.
    pub max_buffered_docs: u32,
    /// Flush a per-thread writer once it holds about this much memory;
    /// zero disables the memory trigger.
    pub ram_buffer_size_bytes: u64,
    /// The codec every segment is written with.
    pub codec_name: String,
    /// The codec format version.
    pub codec_version: i32,
}

impl IndexWriterConfig {
    /// A configuration is usable when its codec name fits a codec header.
    pub open spec fn wf(&self) -> bool {
        vstd::utf8::encode_utf8(self.codec_name@).len() < 128
    }

    /// A configuration with the given budgets and codec.
    pub fn new(
        max_buffered_docs: u32,
        ram_buffer_size_bytes: u64,
        codec_name: String,
        codec_version: i32,
    ) -> (r: IndexWriterConfig)
        requires
            vstd::utf8::encode_utf8(codec_name@).len() < 128,
        ensures
            r.wf(),
            r.max_buffered_docs == max_buffered_docs,
            r.ram_buffer_size_bytes == ram_buffer_size_bytes,
            r.codec_name@ == codec_name@,
            r.codec_version == codec_version,
    {
        IndexWriterConfig { max_buffered_docs, ram_buffer_size_bytes, codec_name, codec_version }
    }

    /// Whether the memory trigger is on.
    pub fn flush_on_ram(&self) -> (r: bool)
        ensures
            r == (self.ram_buffer_size_bytes > 0),
    {
        self.ram_buffer_size_bytes > 0
    }

    /// The memory budget.
    pub fn ram_buffer_size(&self) -> (r: u64)
        ensures
            r == self.ram_buffer_size_bytes,
    {
        self.ram_buffer_size_bytes
    }
}

/// Whether the flush policy takes a writer out of rotation: it crossed the
/// document-count budget or the memory budget.
pub open spec fn should_flush_spec(
    config: IndexWriterConfig,
    dwpt: DocumentsWriterPerThread,
) -> bool {
    ||| (config.max_buffered_docs > 0 && dwpt.num_docs_in_ram >= config.max_buffered_docs)
    ||| (config.ram_buffer_size_bytes > 0 && dwpt.ram_estimate()
        >= config.ram_buffer_size_bytes as int)
}

/// Marks per-thread writers flush-pending when they cross the document-count
/// or memory budget.
pub struct FlushByRamOrCountsPolicy {
}

impl FlushByRamOrCountsPolicy {
    /// Whether the writer has crossed a budget and should be flushed.
    pub fn should_flush(
        &self,
        config: &IndexWriterConfig,
        dwpt: &DocumentsWriterPerThread,
    ) -> (r: bool)
        requires
            dwpt.num_docs_in_ram as int == dwpt.docs@.len(),
            dwpt.docs@.len() < 0x7FFF_FFFF,
        ensures
            r == should_flush_spec(*config, *dwpt),
    {
        let by_count = config.max_buffered_docs > 0 && dwpt.num_docs_in_ram
            >= config.max_buffered_docs;
        let by_ram = config.ram_buffer_size_bytes > 0 && dwpt.ram_bytes_used()
            >= config.ram_buffer_size_bytes;
        by_count || by_ram
    }
}

/// One pool slot, mediating ownership of a per-thread writer.
pub struct ThreadState {
    /// The per-thread writer, once the slot's thread has buffered anything.
    pub dwpt: Option<DocumentsWriterPerThread>,
    /// The highest sequence number an operation on this slot received.
    pub last_seq_no: u64,
    /// Whether the flush policy has marked this slot's writer for flushing.
    pub flush_pending: bool,
}

/// The pool of per-thread writer slots, keyed by a caller-supplied
/// thread-slot index for locality.
pub struct DocumentsWriterPerThreadPool {
    /// The slots; a thread-slot index addresses one of them.
    pub thread_states: Vec<ThreadState>,
    /// Whether the pool is shut down for a full abort.
    pub aborted: bool,
}

impl DocumentsWriterPerThreadPool {
    /// An empty pool.
    pub fn new() -> (r: DocumentsWriterPerThreadPool)
        ensures
            r.thread_states@.len() == 0,
            !r.aborted,
    {
        DocumentsWriterPerThreadPool { thread_states: Vec::new(), aborted: false }
    }

    /// How many slots are active.
    pub fn active_thread_state_count(&self) -> (r: usize)
        ensures
            r == self.thread_states@.len(),
    {
        self.thread_states.len()
    }

    /// Marks the pool shut down.
    pub fn set_abort(&mut self)
        ensures
            final(self).aborted,
            final(self).thread_states@ == old(self).thread_states@,
    {
        self.aborted = true;
    }
}

/// Admission, back-pressure and flush-queue management across the
/// per-thread writers.
pub struct DocumentsWriterFlushControl {
    /// Writers taken out of rotation and waiting to be flushed.
    pub pending_flushes: Vec<DocumentsWriterPerThread>,
    /// Whether a full flush is in progress.
    pub full_flush_in_progress: bool,
    /// Whether the next update should apply all buffered deletes.
    pub apply_all_deletes: bool,
    /// Whether producers are stalled on flush back-pressure.
    pub stalled: bool,
    /// Whether the writer was closed.
    pub closed: bool,
}

impl DocumentsWriterFlushControl {
    /// A fresh control with nothing pending.
    pub fn new() -> (r: DocumentsWriterFlushControl)
        ensures
            r.pending_flushes@.len() == 0,
            !r.full_flush_in_progress,
            !r.apply_all_deletes,
            !r.stalled,
            !r.closed,
    {
        DocumentsWriterFlushControl {
            pending_flushes: Vec::new(),
            full_flush_in_progress: false,
            apply_all_deletes: false,
            stalled: false,
            closed: false,
        }
    }

    /// How many writers wait to be flushed.
    pub fn num_queued_flushes(&self) -> (r: usize)
        ensures
            r == self.pending_flushes@.len(),
    {
        self.pending_flushes.len()
    }

    /// Whether any producer is stalled.
    pub fn any_stalled_threads(&self) -> (r: bool)
        ensures
            r == self.stalled,
    {
        self.stalled
    }

    /// Blocks a producer while back-pressure is on; with the writer lock
    /// held by the caller, draining has already happened, so this clears the
    /// stall.
    pub fn wait_if_stalled(&mut self) -> (r: Result<(), IndexError>)
        ensures
            r is Ok,
            !final(self).stalled,
            final(self).pending_flushes@ == old(self).pending_flushes@,
            final(self).full_flush_in_progress == old(self).full_flush_in_progress,
            final(self).apply_all_deletes == old(self).apply_all_deletes,
            final(self).closed == old(self).closed,
    {
        self.stalled = false;
        Ok(())
    }

    /// Takes the next writer waiting to be flushed, oldest first.
    pub fn next_pending_flush(&mut self) -> (r: Option<DocumentsWriterPerThread>)
        ensures
            old(self).pending_flushes@.len() == 0 ==> r is None && final(self).pending_flushes@
                == old(self).pending_flushes@,
            old(self).pending_flushes@.len() > 0 ==> (r matches Some(d) && d == old(self).pending_flushes@[0] && final(self).pending_flushes@ == old(self).pending_flushes@.drop_first()),
            final(self).full_flush_in_progress == old(self).full_flush_in_progress,
            final(self).apply_all_deletes == old(self).apply_all_deletes,
            final(self).stalled == old(self).stalled,
            final(self).closed == old(self).closed,
    {
        if self.pending_flushes.len() == 0 {
            None
        } else {
            let d = self.pending_flushes.remove(0);
            proof {
                assert(final(self).pending_flushes@ =~= old(self).pending_flushes@.drop_first());
            }
            Some(d)
        }
    }

    /// Hands a writer over to the flush queue.
    pub fn enqueue_flush(&mut self, dwpt: DocumentsWriterPerThread)
        ensures
            final(self).pending_flushes@ == old(self).pending_flushes@.push(dwpt),
            final(self).full_flush_in_progress == old(self).full_flush_in_progress,
            final(self).apply_all_deletes == old(self).apply_all_deletes,
            final(self).stalled == old(self).stalled,
            final(self).closed == old(self).closed,
    {
        self.pending_flushes.push(dwpt);
    }

    /// Notes a delete so the next update applies all buffered deletes.
    pub fn do_on_delete(&mut self)
        ensures
            final(self).apply_all_deletes,
            final(self).pending_flushes@ == old(self).pending_flushes@,
            final(self).full_flush_in_progress == old(self).full_flush_in_progress,
            final(self).stalled == old(self).stalled,
            final(self).closed == old(self).closed,
    {
        self.apply_all_deletes = true;
    }

    /// Reads and clears the apply-all-deletes flag.
    pub fn get_and_reset_apply_all_deletes(&mut self) -> (r: bool)
        ensures
            r == old(self).apply_all_deletes,
            !final(self).apply_all_deletes,
            final(self).pending_flushes@ == old(self).pending_flushes@,
            final(self).full_flush_in_progress == old(self).full_flush_in_progress,
            final(self).stalled == old(self).stalled,
            final(self).closed == old(self).closed,
    {
        let r = self.apply_all_deletes;
        self.apply_all_deletes = false;
        r
    }

    /// Whether a full flush is in progress.
    pub fn is_full_flush(&self) -> (r: bool)
        ensures
            r == self.full_flush_in_progress,
    {
        self.full_flush_in_progress
    }

    /// Drops every queued flush, reporting how many documents were dropped.
    pub fn abort_pending_flushes(&mut self) -> (r: u64)
        ensures
            final(self).pending_flushes@.len() == 0,
            final(self).full_flush_in_progress == old(self).full_flush_in_progress,
            final(self).apply_all_deletes == old(self).apply_all_deletes,
            final(self).stalled == old(self).stalled,
            final(self).closed == old(self).closed,
    {
        let mut dropped: u64 = 0;
        while self.pending_flushes.len() > 0
            invariant
                self.full_flush_in_progress == old(self).full_flush_in_progress,
                self.apply_all_deletes == old(self).apply_all_deletes,
                self.stalled == old(self).stalled,
                self.closed == old(self).closed,
            decreases self.pending_flushes@.len(),
        {
            let dwpt = self.pending_flushes.remove(0);
            let docs = dwpt.num_docs_in_ram as u64;
            dropped = if dropped <= u64::MAX - docs {
                dropped + docs
            } else {
                u64::MAX
            };
        }
        dropped
    }

    /// Ends a full flush normally.
    pub fn finish_full_flush(&mut self)
        ensures
            !final(self).full_flush_in_progress,
            final(self).pending_flushes@ == old(self).pending_flushes@,
            final(self).closed == old(self).closed,
    {
        self.full_flush_in_progress = false;
    }

    /// Cancels a full flush, dropping its queued writers.
    pub fn abort_full_flushes(&mut self)
        ensures
            !final(self).full_flush_in_progress,
            final(self).pending_flushes@.len() == 0,
            final(self).closed == old(self).closed,
    {
        self.abort_pending_flushes();
        self.full_flush_in_progress = false;
    }

    /// Marks the control closed.
    pub fn set_closed(&mut self)
        ensures
            final(self).closed,
            final(self).pending_flushes@ == old(self).pending_flushes@,
    {
        self.closed = true;
    }
}

/// An order-preserving placeholder in the flush-publication queue: it holds
/// the deletes frozen when its flush began, and later the finished segment
/// or a failure marker.
pub struct FlushTicket {
    /// The global deletes frozen when the flush began.
    pub frozen: FrozenBufferedUpdates,
    /// The finished segment, once the flush completed.
    pub segment: Option<FlushedSegment>,
    /// Whether the flush failed; its deletes still publish.
    pub failed: bool,
    /// Whether this ticket stands for a segment flush (rather than a
    /// deletes-only publication).
    pub is_segment_ticket: bool,
    /// The ticket's place in enqueue order.
    pub ticket_id: u64,
}

impl FlushTicket {
    /// Whether the ticket can be handed to the index.
    pub open spec fn can_publish_spec(&self) -> bool {
        !self.is_segment_ticket || self.segment is Some || self.failed
    }

    /// Whether the ticket can be handed to the index.
    pub fn can_publish(&self) -> (r: bool)
        ensures
            r == self.can_publish_spec(),
    {
        !self.is_segment_ticket || self.segment.is_some() || self.failed
    }
}

/// The FIFO serialization point that makes concurrent flushes publish to the
/// index in the order they began.
pub struct DocumentsWriterFlushQueue {
    /// The outstanding tickets, oldest first.
    pub tickets: Vec<FlushTicket>,
    /// The id the next ticket will receive.
    pub next_ticket_id: u64,
}

impl DocumentsWriterFlushQueue {
    /// Ticket ids in the queue are strictly increasing and below the
    /// counter, and every finished segment in it is well-formed.
    pub open spec fn wf(&self) -> bool {
        &&& forall|i: int, j: int|
            0 <= i < j < self.tickets@.len() ==> (#[trigger] self.tickets@[i]).ticket_id < (
            #[trigger] self.tickets@[j]).ticket_id
        &&& forall|i: int|
            0 <= i < self.tickets@.len() ==> (#[trigger] self.tickets@[i]).ticket_id
                < self.next_ticket_id
        &&& forall|i: int|
            0 <= i < self.tickets@.len() ==> ((#[trigger] self.tickets@[i]).segment matches Some(
                seg,
            ) ==> seg.wf())
    }

    /// An empty queue.
    pub fn new() -> (r: DocumentsWriterFlushQueue)
        ensures
            r.wf(),
            r.tickets@.len() == 0,
            r.next_ticket_id == 0,
    {
        DocumentsWriterFlushQueue { tickets: Vec::new(), next_ticket_id: 0 }
    }

    /// How many tickets are outstanding.
    pub fn ticket_count(&self) -> (r: usize)
        ensures
            r == self.tickets@.len(),
    {
        self.tickets.len()
    }

    /// Whether any ticket is outstanding.
    pub fn has_tickets(&self) -> (r: bool)
        ensures
            r == (self.tickets@.len() > 0),
    {
        self.tickets.len() > 0
    }

    /// Enqueues a ticket for a beginning flush, carrying the deletes frozen
    /// at that moment. Returns the ticket's index.
    pub fn add_flush_ticket(&mut self, frozen: FrozenBufferedUpdates) -> (r: usize)
        requires
            old(self).wf(),
            old(self).next_ticket_id < u64::MAX,
        ensures
            final(self).wf(),
            r as int == old(self).tickets@.len(),
            final(self).next_ticket_id == old(self).next_ticket_id + 1,
            final(self).tickets@ == old(self).tickets@.push(
                FlushTicket {
                    frozen,
                    segment: None,
                    failed: false,
                    is_segment_ticket: true,
                    ticket_id: old(self).next_ticket_id,
                },
            ),
    {
        let idx = self.tickets.len();
        let id = self.next_ticket_id;
        self.next_ticket_id = self.next_ticket_id + 1;
        self.tickets.push(
            FlushTicket { frozen, segment: None, failed: false, is_segment_ticket: true, ticket_id: id },
        );
        idx
    }

    /// Enqueues a deletes-only ticket: freezes the queue's global buffer and
    /// publishes it in order, with no segment.
    pub fn add_deletes(&mut self, queue: &mut DocumentsWriterDeleteQueue) -> (r: Result<
        (),
        IndexError,
    >)
        requires
            old(self).wf(),
            old(self).next_ticket_id < u64::MAX,
            old(queue).wf(),
        ensures
            r is Ok,
            final(self).wf(),
            final(queue).wf(),
            final(queue).nodes_spec() == old(queue).nodes_spec(),
            final(queue).next_seq_spec() == old(queue).next_seq_spec(),
            final(queue).issued_spec() == old(queue).issued_spec(),
            final(self).next_ticket_id == old(self).next_ticket_id + 1,
            final(self).tickets@.len() == old(self).tickets@.len() + 1,
            final(self).tickets@.drop_last() == old(self).tickets@,
            !final(self).tickets@.last().is_segment_ticket,
            final(self).tickets@.last().segment is None,
            !final(self).tickets@.last().failed,
            final(self).tickets@.last().ticket_id == old(self).next_ticket_id,
            term_entry_views(final(self).tickets@.last().frozen.terms@) == old(
                queue,
            ).global_buffer().terms_spec() + window_term_deletes(
                old(queue).nodes_spec(),
                old(queue).global_slice_spec().head_spec(),
                old(queue).nodes_spec().len() - 1,
            ),
            final(queue).generation_spec() == old(queue).generation_spec(),
            final(queue).global_buffer().terms_spec() == Seq::<
                (crate::delete_queue::TermLiteral, u64),
            >::empty(),
            final(queue).global_buffer().queries_spec() == Seq::<(Seq<char>, u64)>::empty(),
            final(queue).global_slice_spec().head_spec() == final(queue).nodes_spec().len() - 1,
            final(queue).global_slice_spec().tail_spec() == final(queue).nodes_spec().len() - 1,
    {
        let frozen = queue.freeze_global_buffer();
        let id = self.next_ticket_id;
        self.next_ticket_id = self.next_ticket_id + 1;
        self.tickets.push(
            FlushTicket {
                frozen,
                segment: None,
                failed: false,
                is_segment_ticket: false,
                ticket_id: id,
            },
        );
        proof {
            assert(final(self).tickets@.drop_last() =~= old(self).tickets@);
        }
        Ok(())
    }

    /// Records a finished segment into its ticket.
    pub fn set_segment(&mut self, idx: usize, segment: FlushedSegment)
        requires
            old(self).wf(),
            idx < old(self).tickets@.len(),
            segment.wf(),
        ensures
            final(self).wf(),
            final(self).next_ticket_id == old(self).next_ticket_id,
            final(self).tickets@.len() == old(self).tickets@.len(),
            final(self).tickets@[idx as int].segment matches Some(s) && s == segment,
            final(self).tickets@[idx as int].ticket_id == old(self).tickets@[idx as int].ticket_id,
            final(self).tickets@[idx as int].frozen == old(self).tickets@[idx as int].frozen,
            final(self).tickets@[idx as int].is_segment_ticket == old(self).tickets@[idx as int].is_segment_ticket,
            final(self).tickets@[idx as int].failed == old(self).tickets@[idx as int].failed,
            forall|i: int|
                0 <= i < old(self).tickets@.len() && i != idx as int ==> final(self).tickets@[i]
                    == old(self).tickets@[i],
    {
        let mut ticket = self.tickets.remove(idx);
        ticket.segment = Some(segment);
        self.tickets.insert(idx, ticket);
        proof {
            assert forall|i: int| 0 <= i < old(self).tickets@.len() && i != idx as int implies
                final(self).tickets@[i] == old(self).tickets@[i] by {
                assert(final(self).tickets@[i] == old(self).tickets@.remove(idx as int).insert(
                    idx as int,
                    final(self).tickets@[idx as int],
                )[i]);
            }
        }
    }

    /// Records a failed flush into its ticket; its frozen deletes will still
    /// publish.
    pub fn set_failed(&mut self, idx: usize)
        requires
            old(self).wf(),
            idx < old(self).tickets@.len(),
        ensures
            final(self).wf(),
            final(self).next_ticket_id == old(self).next_ticket_id,
            final(self).tickets@.len() == old(self).tickets@.len(),
            final(self).tickets@[idx as int].failed,
            final(self).tickets@[idx as int].ticket_id == old(self).tickets@[idx as int].ticket_id,
            forall|i: int|
                0 <= i < old(self).tickets@.len() && i != idx as int ==> final(self).tickets@[i]
                    == old(self).tickets@[i],
    {
        let mut ticket = self.tickets.remove(idx);
        ticket.failed = true;
        self.tickets.insert(idx, ticket);
        proof {
            assert forall|i: int| 0 <= i < old(self).tickets@.len() && i != idx as int implies
                final(self).tickets@[i] == old(self).tickets@[i] by {
                assert(final(self).tickets@[i] == old(self).tickets@.remove(idx as int).insert(
                    idx as int,
                    final(self).tickets@[idx as int],
                )[i]);
            }
        }
    }

    /// Walks the queue from the head while the head ticket is ready and
    /// hands each one to the index, in enqueue order: the publication order
    /// of segments equals the order in which their tickets were enqueued.
    /// Returns how many tickets were published.
    pub fn force_purge(&mut self, index: &mut PublishedIndex) -> (r: Result<u32, IndexError>)
        requires
            old(self).wf(),
            old(index).wf(),
            old(self).tickets@.len() <= u32::MAX,
        ensures
            final(self).wf(),
            final(index).wf(),
            exists|k: int|
                {
                    &&& 0 <= k <= old(self).tickets@.len()
                    &&& final(self).tickets@ == old(self).tickets@.skip(k)
                    &&& final(index).published_tickets() == old(index).published_tickets() + (
                    #[trigger] old(self).tickets@.take(k)).map_values(
                        |t: FlushTicket| t.ticket_id,
                    )
                    &&& published_all(
                        old(index).segments_spec(),
                        old(self).tickets@.take(k),
                        final(index).segments_spec(),
                    )
                    &&& r == Ok::<u32, IndexError>(k as u32)
                },
            final(self).tickets@.len() == 0 || !final(self).tickets@[0].can_publish_spec(),
            final(self).next_ticket_id == old(self).next_ticket_id,
    {
        let mut published: u32 = 0;
        let ghost olds = old(self).tickets@;
        let n0 = self.tickets.len();
        let mut k: usize = 0;
        while self.tickets.len() > 0 && self.tickets[0].can_publish()
            invariant
                self.wf(),
                index.wf(),
                n0 as int == olds.len(),
                olds.len() <= u32::MAX,
                0 <= k as int <= olds.len(),
                olds == old(self).tickets@,
                self.tickets@ == olds.skip(k as int),
                self.next_ticket_id == old(self).next_ticket_id,
                published as int == k as int,
                index.published_tickets() == old(index).published_tickets() + olds.take(
                    k as int,
                ).map_values(|t: FlushTicket| t.ticket_id),
                published_all(old(index).segments_spec(), olds.take(k as int), index.segments_spec()),
            decreases self.tickets@.len(),
        {
            let ghost segs_pre = index.segments_spec();
            let ticket = self.tickets.remove(0);
            index.publish(ticket.segment, &ticket.frozen, Ghost(ticket.ticket_id));
            published = published + 1;
            proof {
                assert(self.tickets@ =~= olds.skip(k as int + 1));
                assert(olds.take(k as int + 1).map_values(|t: FlushTicket| t.ticket_id)
                    =~= olds.take(k as int).map_values(|t: FlushTicket| t.ticket_id).push(
                    olds[k as int].ticket_id,
                ));
                assert(ticket == olds[k as int]);
                assert(published_one(segs_pre, ticket, index.segments_spec()));
                lemma_published_all_snoc(
                    old(index).segments_spec(),
                    olds.take(k as int),
                    segs_pre,
                    ticket,
                    index.segments_spec(),
                );
                assert(olds.take(k as int + 1) =~= olds.take(k as int).push(olds[k as int]));
            }
            k = k + 1;
        }
        Ok(published)
    }

    /// Hands every ready ticket at the head to the index; gives up at the
    /// first ticket whose flush has not finished. Without concurrent
    /// flushes in flight this is the same walk as a forced purge.
    pub fn try_purge(&mut self, index: &mut PublishedIndex) -> (r: Result<u32, IndexError>)
        requires
            old(self).wf(),
            old(index).wf(),
            old(self).tickets@.len() <= u32::MAX,
        ensures
            final(self).wf(),
            final(index).wf(),
            exists|k: int|
                {
                    &&& 0 <= k <= old(self).tickets@.len()
                    &&& final(self).tickets@ == old(self).tickets@.skip(k)
                    &&& final(index).published_tickets() == old(index).published_tickets() + (
                    #[trigger] old(self).tickets@.take(k)).map_values(
                        |t: FlushTicket| t.ticket_id,
                    )
                    &&& published_all(
                        old(index).segments_spec(),
                        old(self).tickets@.take(k),
                        final(index).segments_spec(),
                    )
                    &&& r == Ok::<u32, IndexError>(k as u32)
                },
            final(self).tickets@.len() == 0 || !final(self).tickets@[0].can_publish_spec(),
            final(self).next_ticket_id == old(self).next_ticket_id,
    {
        self.force_purge(index)
    }
}

/// Law: flush publication respects ticket order. Ticket ids grow in enqueue
/// order, a purge hands the index a prefix of the queue in place, and so the
/// ids the index records during one purge are strictly increasing: segments
/// reach the index exactly in the order their flush tickets were enqueued,
/// whatever order the flushes finished in.
pub proof fn lemma_publication_order(q: DocumentsWriterFlushQueue, ids: Seq<u64>, k: int)
    requires
        q.wf(),
        0 <= k <= q.tickets@.len(),
        ids == q.tickets@.take(k).map_values(|t: FlushTicket| t.ticket_id),
    ensures
        forall|i: int, j: int| 0 <= i < j < k ==> ids[i] < ids[j],
{
    assert forall|i: int, j: int| 0 <= i < j < k implies ids[i] < ids[j] by {
        assert(q.tickets@[i].ticket_id < q.tickets@[j].ticket_id);
        assert(ids[i] == q.tickets@.take(k)[i].ticket_id);
        assert(ids[j] == q.tickets@.take(k)[j].ticket_id);
    }
}

/// The ids of the queued tickets, in enqueue order.
pub open spec fn ticket_ids(ts: Seq<FlushTicket>) -> Seq<u64> {
    ts.map_values(|t: FlushTicket| t.ticket_id)
}

/// `count` consecutive ticket ids starting at `from`.
pub open spec fn id_range(from: int, count: int) -> Seq<u64> {
    Seq::new(count as nat, |i: int| (from + i) as u64)
}

/// How the index's segments change when one ticket is handed to it: the
/// ticket's frozen packet is applied to every segment published before it,
/// and the ticket's segment, if it carries one, is appended untouched.
pub open spec fn published_one(
    segs0: Seq<FlushedSegment>,
    t: FlushTicket,
    segs1: Seq<FlushedSegment>,
) -> bool {
    &&& segs1.len() == segs0.len() + (if t.segment is Some {
        1int
    } else {
        0int
    })
    &&& forall|s: int|
        0 <= s < segs0.len() ==> packet_applied(
            segs0[s],
            #[trigger] segs1[s],
            crate::delete_queue::term_entry_views(t.frozen.terms@),
        )
    &&& (t.segment matches Some(seg) ==> segs1.last() == seg)
}

/// How the index's segments change when the tickets are handed to it in
/// order, oldest first: the tickets but the last lead to some intermediate
/// segment list, and the last ticket takes that list to the final one.
pub open spec fn published_all(
    segs0: Seq<FlushedSegment>,
    tickets: Seq<FlushTicket>,
    segs1: Seq<FlushedSegment>,
) -> bool
    decreases tickets.len(),
{
    if tickets.len() == 0 {
        segs1 == segs0
    } else {
        exists|mid: Seq<FlushedSegment>|
            published_all(segs0, tickets.drop_last(), mid) && #[trigger] published_one(
                mid,
                tickets.last(),
                segs1,
            )
    }
}

/// Publishing one more ticket extends a publication chain at its end.
pub proof fn lemma_published_all_snoc(
    segs0: Seq<FlushedSegment>,
    tickets: Seq<FlushTicket>,
    segs1: Seq<FlushedSegment>,
    t: FlushTicket,
    segs2: Seq<FlushedSegment>,
)
    requires
        published_all(segs0, tickets, segs1),
        published_one(segs1, t, segs2),
    ensures
        published_all(segs0, tickets.push(t), segs2),
{
    let ts = tickets.push(t);
    assert(ts.drop_last() =~= tickets);
    assert(published_all(segs0, ts, segs2)) by {
        assert(published_all(segs0, ts.drop_last(), segs1) && published_one(
            segs1,
            ts.last(),
            segs2,
        ));
    };
}

/// An event for the index writer to act on after an update returns.
pub enum WriterEvent {
    /// Apply the buffered deletes now.
    ApplyDeletes,
    /// A segment was flushed; consider merging.
    MergePending,
    /// The ticket backlog crossed the thread count; purge forcefully.
    ForcedPurge,
    /// A flush failed; roll back references to its segment.
    FlushFailed(SegmentInfo),
    /// Unlink files written by an aborted flush.
    DeleteNewFiles(Vec<String>),
}

} // verus!

verus! {

/// How many documents sit in the writers a pool holds.
pub open spec fn pool_docs(states: Seq<ThreadState>) -> int
    decreases states.len(),
{
    if states.len() == 0 {
        0
    } else {
        pool_docs(states.drop_last()) + match states.last().dwpt {
            Some(d) => d.docs@.len() as int,
            None => 0,
        }
    }
}

/// The document buffers of the writers a pool holds, in slot order.
pub open spec fn pool_buffers(states: Seq<ThreadState>) -> Seq<Seq<StoredDocument>>
    decreases states.len(),
{
    if states.len() == 0 {
        Seq::empty()
    } else {
        pool_buffers(states.drop_last()) + (match states.last().dwpt {
            Some(d) => seq![d.docs@],
            None => Seq::<Seq<StoredDocument>>::empty(),
        })
    }
}

/// Walking one more slot extends the buffer list by that slot's buffer.
pub proof fn lemma_pool_buffers_take_step(states: Seq<ThreadState>, i: int)
    requires
        0 <= i < states.len(),
    ensures
        pool_buffers(states.take(i + 1)) == pool_buffers(states.take(i)) + (match states[i].dwpt {
            Some(d) => seq![d.docs@],
            None => Seq::<Seq<StoredDocument>>::empty(),
        }),
{
    assert(states.take(i + 1).drop_last() =~= states.take(i));
    assert(states.take(i + 1).last() == states[i]);
}

/// A pool contributes no buffers exactly when none of its slots holds a
/// writer.
pub proof fn lemma_pool_buffers_empty(states: Seq<ThreadState>)
    ensures
        (pool_buffers(states).len() == 0) <==> (forall|k: int|
            0 <= k < states.len() ==> (#[trigger] states[k]).dwpt is None),
    decreases states.len(),
{
    if states.len() > 0 {
        lemma_pool_buffers_empty(states.drop_last());
        assert forall|k: int|
            0 <= k < states.len() && pool_buffers(states).len() == 0 implies (
        #[trigger] states[k]).dwpt is None by {
            if k < states.len() - 1 {
                assert(states.drop_last()[k] == states[k]);
            }
        }
        if forall|k: int| 0 <= k < states.len() ==> (#[trigger] states[k]).dwpt is None {
            assert forall|k: int| 0 <= k < states.drop_last().len() implies (
            #[trigger] states.drop_last()[k]).dwpt is None by {
                assert(states.drop_last()[k] == states[k]);
            }
        }
    }
}

/// How many documents sit in writers waiting to be flushed.
pub open spec fn pending_docs(ds: Seq<DocumentsWriterPerThread>) -> int
    decreases ds.len(),
{
    if ds.len() == 0 {
        0
    } else {
        pending_docs(ds.drop_last()) + ds.last().docs@.len()
    }
}

/// A pool never holds a negative number of documents.
pub proof fn lemma_pool_docs_nonneg(states: Seq<ThreadState>)
    ensures
        pool_docs(states) >= 0,
    decreases states.len(),
{
    if states.len() > 0 {
        lemma_pool_docs_nonneg(states.drop_last());
    }
}

/// Waiting writers never hold a negative number of documents.
pub proof fn lemma_pending_docs_nonneg(ds: Seq<DocumentsWriterPerThread>)
    ensures
        pending_docs(ds) >= 0,
    decreases ds.len(),
{
    if ds.len() > 0 {
        lemma_pending_docs_nonneg(ds.drop_last());
    }
}

/// Replacing one slot changes the pool's count by that slot's difference.
pub proof fn lemma_pool_docs_update(states: Seq<ThreadState>, i: int, st: ThreadState)
    requires
        0 <= i < states.len(),
    ensures
        pool_docs(states.update(i, st)) == pool_docs(states) - (match states[i].dwpt {
            Some(d) => d.docs@.len() as int,
            None => 0int,
        }) + (match st.dwpt {
            Some(d) => d.docs@.len() as int,
            None => 0int,
        }),
    decreases states.len(),
{
    let upd = states.update(i, st);
    if i == states.len() - 1 {
        assert(upd.drop_last() =~= states.drop_last());
        assert(upd.last() == st);
    } else {
        assert(upd.drop_last() =~= states.drop_last().update(i, st));
        assert(upd.last() == states.last());
        lemma_pool_docs_update(states.drop_last(), i, st);
    }
}

/// Appending an empty slot leaves the pool's count unchanged.
pub proof fn lemma_pool_docs_push_empty(states: Seq<ThreadState>, st: ThreadState)
    requires
        st.dwpt is None,
    ensures
        pool_docs(states.push(st)) == pool_docs(states),
{
    assert(states.push(st).drop_last() =~= states);
}

/// Appending a waiting writer adds its documents to the count.
pub proof fn lemma_pending_docs_push(ds: Seq<DocumentsWriterPerThread>, d: DocumentsWriterPerThread)
    ensures
        pending_docs(ds.push(d)) == pending_docs(ds) + d.docs@.len(),
{
    assert(ds.push(d).drop_last() =~= ds);
}

/// Taking the first waiting writer removes its documents from the count.
pub proof fn lemma_pending_docs_drop_first(ds: Seq<DocumentsWriterPerThread>)
    requires
        ds.len() > 0,
    ensures
        pending_docs(ds.drop_first()) == pending_docs(ds) - ds[0].docs@.len(),
    decreases ds.len(),
{
    if ds.len() == 1 {
        assert(ds.drop_first() =~= Seq::<DocumentsWriterPerThread>::empty());
        assert(ds.drop_last() =~= Seq::<DocumentsWriterPerThread>::empty());
    } else {
        assert(ds.drop_first().drop_last() =~= ds.drop_last().drop_first());
        assert(ds.drop_first().last() == ds.last());
        lemma_pending_docs_drop_first(ds.drop_last());
    }
}

/// A writer sound against a delete log stays sound as the log grows.
pub proof fn lemma_states_wf_longer(states: Seq<ThreadState>, n1: int, n2: int)
    requires
        n1 <= n2,
        forall|i: int|
            0 <= i < states.len() ==> match (#[trigger] states[i]).dwpt {
                Some(d) => d.wf(n1) && !d.aborted,
                None => true,
            },
    ensures
        forall|i: int|
            0 <= i < states.len() ==> match (#[trigger] states[i]).dwpt {
                Some(d) => d.wf(n2) && !d.aborted,
                None => true,
            },
{
    assert forall|i: int| 0 <= i < states.len() implies match (#[trigger] states[i]).dwpt {
        Some(d) => d.wf(n2) && !d.aborted,
        None => true,
    } by {
        match states[i].dwpt {
            Some(d) => {
                assert(d.wf(n1));
            },
            None => {},
        }
    }
}

/// Waiting writers sound against a delete log stay sound as the log grows.
pub proof fn lemma_pending_wf_longer(ds: Seq<DocumentsWriterPerThread>, n1: int, n2: int)
    requires
        n1 <= n2,
        forall|i: int| 0 <= i < ds.len() ==> (#[trigger] ds[i]).wf(n1) && !ds[i].aborted,
    ensures
        forall|i: int| 0 <= i < ds.len() ==> (#[trigger] ds[i]).wf(n2) && !ds[i].aborted,
{
    assert forall|i: int| 0 <= i < ds.len() implies (#[trigger] ds[i]).wf(n2) && !ds[i].aborted by {
        assert(ds[i].wf(n1));
    }
}

/// Removing one slot keeps every remaining slot's facts.
pub proof fn lemma_states_remove_keeps(states: Seq<ThreadState>, t: int, n: int)
    requires
        0 <= t < states.len(),
        forall|i: int|
            0 <= i < states.len() ==> match (#[trigger] states[i]).dwpt {
                Some(d) => d.wf(n) && !d.aborted,
                None => true,
            },
    ensures
        forall|i: int|
            0 <= i < states.remove(t).len() ==> match (#[trigger] states.remove(t)[i]).dwpt {
                Some(d) => d.wf(n) && !d.aborted,
                None => true,
            },
{
    assert forall|i: int| 0 <= i < states.remove(t).len() implies match (#[trigger] states.remove(
        t,
    )[i]).dwpt {
        Some(d) => d.wf(n) && !d.aborted,
        None => true,
    } by {
        if i < t {
            assert(states.remove(t)[i] == states[i]);
        } else {
            assert(states.remove(t)[i] == states[i + 1]);
        }
    }
}

/// The outer writer: glue between producers and the index. Producers hand it
/// documents and deletes; it buffers them in per-thread writers, flushes
/// writers that cross a budget, and publishes finished segments to the index
/// in ticket order.
pub struct DocumentsWriter {
    /// Whether the writer was closed.
    pub closed: bool,
    /// How many documents sit in memory across all per-thread writers.
    pub num_docs_in_ram: u32,
    /// The process-wide pending-deletes queue.
    pub delete_queue: DocumentsWriterDeleteQueue,
    /// The flush-publication queue.
    pub ticket_queue: DocumentsWriterFlushQueue,
    /// The per-thread writer pool.
    pub per_thread_pool: DocumentsWriterPerThreadPool,
    /// The flush policy.
    pub flush_policy: FlushByRamOrCountsPolicy,
    /// Admission, back-pressure and flush scheduling.
    pub flush_control: DocumentsWriterFlushControl,
    /// The budgets and codec identity.
    pub config: IndexWriterConfig,
    /// Where segments are written.
    pub directory: RamDirectory,
    /// Events for the index writer to act on.
    pub events: Vec<WriterEvent>,
    /// The highest sequence number any operation received.
    pub last_seq_no: u64,
    /// Changes preserved while a full flush is under way.
    pub pending_changes_in_current_full_flush: bool,
    /// Names the next segment.
    pub segment_counter: u64,
    /// How many documents were ever handed to this writer.
    pub total_adds: Ghost<int>,
    /// How many buffered documents aborts discarded.
    pub total_aborted: Ghost<int>,
    /// How many documents failed flushes lost.
    pub total_failed: Ghost<int>,
    /// How many documents flushes moved out of memory.
    pub total_flushed: Ghost<int>,
}

impl DocumentsWriter {
    /// The memory accounting: what sits in memory is what was added, less
    /// what flushes moved out, less what aborts discarded, less what failed.
    pub open spec fn accounting_ok(&self) -> bool {
        self.num_docs_in_ram as int == self.total_adds@ - self.total_flushed@ - self.total_aborted@
            - self.total_failed@
    }

    /// Well-formedness: every part well-formed, every held writer sound
    /// against the delete log, and the in-memory count equal to the number
    /// of documents the held writers hold.
    pub open spec fn wf(&self) -> bool {
        &&& self.wf_core()
        &&& self.num_docs_in_ram as int == pool_docs(self.per_thread_pool.thread_states@)
            + pending_docs(self.flush_control.pending_flushes@)
    }

    /// A fresh writer over a directory.
    pub fn new(config: IndexWriterConfig, directory: RamDirectory) -> (r: DocumentsWriter)
        requires
            config.wf(),
        ensures
            r.wf(),
            !r.closed,
            r.num_docs_in_ram == 0,
            r.delete_queue.next_seq_spec() == 1,
            r.delete_queue.issued_spec() == Seq::<u64>::empty(),
            r.delete_queue.nodes_spec().len() == 1,
            r.delete_queue.generation_spec() == 0,
            r.total_adds@ == 0,
            r.total_flushed@ == 0,
            r.total_aborted@ == 0,
            r.total_failed@ == 0,
            r.events@.len() == 0,
            r.segment_counter == 0,
            r.last_seq_no == 0,
            r.ticket_queue.next_ticket_id == 0,
            r.ticket_queue.tickets@.len() == 0,
            r.flush_control.pending_flushes@.len() == 0,
            !r.flush_control.full_flush_in_progress,
            !r.pending_changes_in_current_full_flush,
            r.per_thread_pool.thread_states@.len() == 0,
            r.directory == directory,
            r.config == config,
    {
        let r = DocumentsWriter {
            closed: false,
            num_docs_in_ram: 0,
            delete_queue: DocumentsWriterDeleteQueue::default_queue(),
            ticket_queue: DocumentsWriterFlushQueue::new(),
            per_thread_pool: DocumentsWriterPerThreadPool::new(),
            flush_policy: FlushByRamOrCountsPolicy {  },
            flush_control: DocumentsWriterFlushControl::new(),
            config,
            directory,
            events: Vec::new(),
            last_seq_no: 0,
            pending_changes_in_current_full_flush: false,
            segment_counter: 0,
            total_adds: Ghost(0),
            total_aborted: Ghost(0),
            total_failed: Ghost(0),
            total_flushed: Ghost(0),
        };
        proof {
            assert(pool_docs(r.per_thread_pool.thread_states@) == 0);
            assert(pending_docs(r.flush_control.pending_flushes@) == 0);
        }
        r
    }

    /// How many documents sit in memory.
    pub fn num_docs(&self) -> (r: u32)
        ensures
            r == self.num_docs_in_ram,
    {
        self.num_docs_in_ram
    }

    /// Fails once the writer is closed.
    fn ensure_open(&self) -> (r: Result<(), IndexError>)
        ensures
            self.closed ==> r == Err::<(), IndexError>(IndexError::AlreadyClosed),
            !self.closed ==> r is Ok,
    {
        if self.closed {
            Err(IndexError::AlreadyClosed)
        } else {
            Ok(())
        }
    }

    /// Marks the writer closed.
    pub fn close(&mut self)
        ensures
            final(self).closed,
            final(self).wf() == old(self).wf(),
    {
        self.closed = true;
        self.flush_control.set_closed();
    }

    /// Queues an event for the index writer.
    fn put_event(&mut self, event: WriterEvent)
        ensures
            final(self).events@ == old(self).events@.push(event),
            *final(self) == (DocumentsWriter { events: final(self).events, ..*old(self) }),
    {
        self.events.push(event);
    }

    /// Reduces the in-memory count when a flush or an abort moves documents
    /// out of memory.
    pub fn subtract_flushed_num_docs(&mut self, num_flushed: u32)
        requires
            num_flushed <= old(self).num_docs_in_ram,
        ensures
            final(self).num_docs_in_ram == old(self).num_docs_in_ram - num_flushed,
            *final(self) == (DocumentsWriter {
                num_docs_in_ram: final(self).num_docs_in_ram,
                ..*old(self)
            }),
    {
        self.num_docs_in_ram = self.num_docs_in_ram - num_flushed;
    }

    /// Whether anything would be lost without a flush or commit: buffered
    /// documents, pending deletes, unpublished tickets, or changes preserved
    /// during the current full flush.
    pub fn any_changes(&self) -> (r: bool)
        requires
            self.wf(),
        ensures
            r == (self.num_docs_in_ram > 0 || self.delete_queue.global_buffer().terms_spec().len()
                > 0 || self.delete_queue.global_buffer().queries_spec().len() > 0
                || self.delete_queue.global_slice_spec().head_spec()
                != self.delete_queue.global_slice_spec().tail_spec()
                || self.delete_queue.global_slice_spec().tail_spec()
                != self.delete_queue.nodes_spec().len() - 1 || self.ticket_queue.tickets@.len() > 0
                || self.pending_changes_in_current_full_flush),
    {
        self.num_docs_in_ram > 0 || self.delete_queue.any_changes() || self.ticket_queue.has_tickets()
            || self.pending_changes_in_current_full_flush
    }

    /// Appends a delete for every document holding any of `terms`, issuing
    /// one sequence number for the operation.
    pub fn delete_terms(&mut self, terms: Vec<Term>) -> (r: Result<(u64, bool), IndexError>)
        requires
            old(self).wf(),
            old(self).delete_queue.next_seq_spec() < u64::MAX,
        ensures
            final(self).wf(),
            old(self).closed ==> r == Err::<(u64, bool), IndexError>(IndexError::AlreadyClosed)
                && *final(self) == *old(self),
            !old(self).closed ==> ({
                &&& r matches Ok(p) && p.0 as int == old(self).delete_queue.next_seq_spec()
                    && p.1
                &&& final(self).delete_queue.next_seq_spec() == old(self).delete_queue.next_seq_spec() + 1
                &&& final(self).delete_queue.issued_spec() == old(self).delete_queue.issued_spec().push((old(self).delete_queue.next_seq_spec()) as u64)
                &&& final(self).delete_queue.nodes_spec() == old(self).delete_queue.nodes_spec().push(
                    crate::delete_queue::QueueNode {
                        node: crate::delete_queue::DeleteNode::TermArray(terms),
                        seq: (old(self).delete_queue.next_seq_spec()) as u64,
                    },
                )
                &&& final(self).last_seq_no as int == if old(self).delete_queue.next_seq_spec()
                    > old(self).last_seq_no as int {
                    old(self).delete_queue.next_seq_spec()
                } else {
                    old(self).last_seq_no as int
                }
                &&& final(self).events@ == old(self).events@.push(WriterEvent::ApplyDeletes)
                &&& final(self).total_adds@ == old(self).total_adds@
                &&& final(self).total_flushed@ == old(self).total_flushed@
                &&& final(self).total_aborted@ == old(self).total_aborted@
                &&& final(self).total_failed@ == old(self).total_failed@
                &&& final(self).num_docs_in_ram == old(self).num_docs_in_ram
            }),
    {
        match self.ensure_open() {
            Ok(()) => (),
            Err(e) => {
                return Err(e);
            },
        }
        let seq_no = match self.delete_queue.add_delete_terms(terms) {
            Ok(s) => s,
            Err(e) => {
                proof {
                    assert(false);
                }
                return Err(e);
            },
        };
        self.flush_control.do_on_delete();
        let applied = self.apply_all_deletes_local();
        if seq_no > self.last_seq_no {
            self.last_seq_no = seq_no;
        }
        Ok((seq_no, applied))
    }

    /// Appends a delete for every document matching any of `queries`,
    /// issuing one sequence number for the operation.
    pub fn delete_queries(&mut self, queries: Vec<String>) -> (r: Result<(u64, bool), IndexError>)
        requires
            old(self).wf(),
            old(self).delete_queue.next_seq_spec() < u64::MAX,
        ensures
            final(self).wf(),
            old(self).closed ==> r == Err::<(u64, bool), IndexError>(IndexError::AlreadyClosed)
                && *final(self) == *old(self),
            !old(self).closed ==> ({
                &&& r matches Ok(p) && p.0 as int == old(self).delete_queue.next_seq_spec()
                    && p.1
                &&& final(self).delete_queue.next_seq_spec() == old(self).delete_queue.next_seq_spec() + 1
                &&& final(self).delete_queue.issued_spec() == old(self).delete_queue.issued_spec().push((old(self).delete_queue.next_seq_spec()) as u64)
                &&& final(self).delete_queue.nodes_spec() == old(self).delete_queue.nodes_spec().push(
                    crate::delete_queue::QueueNode {
                        node: crate::delete_queue::DeleteNode::QueryArray(queries),
                        seq: (old(self).delete_queue.next_seq_spec()) as u64,
                    },
                )
                &&& final(self).last_seq_no as int == if old(self).delete_queue.next_seq_spec()
                    > old(self).last_seq_no as int {
                    old(self).delete_queue.next_seq_spec()
                } else {
                    old(self).last_seq_no as int
                }
                &&& final(self).events@ == old(self).events@.push(WriterEvent::ApplyDeletes)
                &&& final(self).total_adds@ == old(self).total_adds@
                &&& final(self).total_flushed@ == old(self).total_flushed@
                &&& final(self).total_aborted@ == old(self).total_aborted@
                &&& final(self).total_failed@ == old(self).total_failed@
                &&& final(self).num_docs_in_ram == old(self).num_docs_in_ram
            }),
    {
        match self.ensure_open() {
            Ok(()) => (),
            Err(e) => {
                return Err(e);
            },
        }
        let seq_no = match self.delete_queue.add_delete_queries(queries) {
            Ok(s) => s,
            Err(e) => {
                proof {
                    assert(false);
                }
                return Err(e);
            },
        };
        self.flush_control.do_on_delete();
        let applied = self.apply_all_deletes_local();
        if seq_no > self.last_seq_no {
            self.last_seq_no = seq_no;
        }
        Ok((seq_no, applied))
    }

    /// When a delete asked for it, enqueues a deletes-only ticket (outside a
    /// full flush) and an event telling the index writer to apply deletes.
    fn apply_all_deletes_local(&mut self) -> (r: bool)
        requires
            old(self).wf(),
        ensures
            final(self).wf(),
            r == old(self).flush_control.apply_all_deletes,
            !final(self).flush_control.apply_all_deletes,
            r ==> final(self).events@ == old(self).events@.push(WriterEvent::ApplyDeletes),
            !r ==> final(self).events@ == old(self).events@,
            r && !old(self).flush_control.full_flush_in_progress && old(self).ticket_queue.next_ticket_id < u64::MAX ==> final(self).ticket_queue.tickets@.len()
                == old(self).ticket_queue.tickets@.len() + 1 && final(self).delete_queue.global_buffer().terms_spec().len() == 0,
            final(self).delete_queue.next_seq_spec() == old(self).delete_queue.next_seq_spec(),
            final(self).delete_queue.issued_spec() == old(self).delete_queue.issued_spec(),
            final(self).delete_queue.nodes_spec() == old(self).delete_queue.nodes_spec(),
            final(self).num_docs_in_ram == old(self).num_docs_in_ram,
            final(self).last_seq_no == old(self).last_seq_no,
            final(self).total_adds@ == old(self).total_adds@,
            final(self).total_flushed@ == old(self).total_flushed@,
            final(self).total_aborted@ == old(self).total_aborted@,
            final(self).total_failed@ == old(self).total_failed@,
            final(self).closed == old(self).closed,
            final(self).per_thread_pool.thread_states@ == old(self).per_thread_pool.thread_states@,
            final(self).flush_control.pending_flushes@ == old(self).flush_control.pending_flushes@,
            final(self).config == old(self).config,
            final(self).segment_counter == old(self).segment_counter,
    {
        if self.flush_control.get_and_reset_apply_all_deletes() {
            if !self.flush_control.is_full_flush() {
                if self.ticket_queue.next_ticket_id < u64::MAX {
                    let ghost t0 = self.ticket_queue.tickets@;
                    let _ = self.ticket_queue.add_deletes(&mut self.delete_queue);
                    proof {
                        assert forall|i: int| 0 <= i < self.ticket_queue.tickets@.len() implies (
                        #[trigger] self.ticket_queue.tickets@[i]).can_publish_spec() by {
                            if i < self.ticket_queue.tickets@.len() - 1 {
                                assert(self.ticket_queue.tickets@[i]
                                    == self.ticket_queue.tickets@.drop_last()[i]);
                            }
                        }
                    }
                }
            }
            self.put_event(WriterEvent::ApplyDeletes);
            true
        } else {
            false
        }
    }
}

} // verus!

verus! {

impl DocumentsWriter {
    /// Everything `wf` asks except the in-memory count, which a flush in
    /// flight accounts for separately while it holds a writer outside both
    /// the pool and the flush queue.
    pub open spec fn wf_core(&self) -> bool {
        &&& self.delete_queue.wf()
        &&& self.ticket_queue.wf()
        &&& self.config.wf()
        &&& forall|i: int|
            0 <= i < self.per_thread_pool.thread_states@.len() ==> match (
            #[trigger] self.per_thread_pool.thread_states@[i]).dwpt {
                Some(d) => d.wf(self.delete_queue.nodes_spec().len() as int) && !d.aborted,
                None => true,
            }
        &&& forall|i: int|
            0 <= i < self.flush_control.pending_flushes@.len() ==> (
            #[trigger] self.flush_control.pending_flushes@[i]).wf(
                self.delete_queue.nodes_spec().len() as int,
            ) && !self.flush_control.pending_flushes@[i].aborted
        &&& forall|i: int|
            0 <= i < self.ticket_queue.tickets@.len() ==> (
            #[trigger] self.ticket_queue.tickets@[i]).can_publish_spec()
        &&& self.accounting_ok()
    }

    /// Makes the next fresh segment name and id.
    fn next_segment_identity(&mut self) -> (r: (String, Vec<u8>))
        requires
            old(self).segment_counter < u64::MAX,
        ensures
            final(self).segment_counter == old(self).segment_counter + 1,
            *final(self) == (DocumentsWriter {
                segment_counter: final(self).segment_counter,
                ..*old(self)
            }),
            r.1@.len() == 16,
            vstd::utf8::encode_utf8(r.0@).len() < 256,
    {
        let n = self.segment_counter;
        self.segment_counter = n + 1;
        let mut name = String::new();
        proof {
            reveal_strlit("_");
        }
        name.append("_");
        push_decimal(&mut name, n);
        proof {
            reveal_strlit("_");
            lemma_dec_chars_short(n as int);
            lemma_dec_chars_ascii(n as int);
            assert(vstd::utf8::is_ascii_chars(name@)) by {
                assert(name@ =~= seq!['_'] + dec_chars(n as int));
                assert forall|i: int| 0 <= i < name@.len() implies '\0' <= #[trigger] name@[i]
                    <= '\u{7f}' by {
                    if i > 0 {
                        assert(name@[i] == dec_chars(n as int)[i - 1]);
                    } else {
                        assert(name@[i] == '_');
                    }
                }
            }
            assert(vstd::utf8::encode_utf8(name@).len() < 256) by {
                lemma_ascii_encode_len(name@);
            }
        }
        let mut id: Vec<u8> = Vec::new();
        let mut k: usize = 0;
        while k < 8
            invariant
                0 <= k <= 8,
                id@.len() == k as int,
            decreases 8 - k,
        {
            id.push(0);
            k = k + 1;
        }
        id.push(((n >> 56) & 0xff) as u8);
        id.push(((n >> 48) & 0xff) as u8);
        id.push(((n >> 40) & 0xff) as u8);
        id.push(((n >> 32) & 0xff) as u8);
        id.push(((n >> 24) & 0xff) as u8);
        id.push(((n >> 16) & 0xff) as u8);
        id.push(((n >> 8) & 0xff) as u8);
        id.push((n & 0xff) as u8);
        (name, id)
    }

    /// Grows the pool with empty slots until `thread` addresses one.
    fn ensure_slot(&mut self, thread: usize)
        requires
            old(self).wf(),
            thread < MAX_THREAD_SLOTS,
        ensures
            final(self).wf(),
            final(self).per_thread_pool.thread_states@.len() > thread,
            final(self).delete_queue == old(self).delete_queue,
            final(self).total_adds@ == old(self).total_adds@,
            final(self).total_aborted@ == old(self).total_aborted@,
            final(self).total_failed@ == old(self).total_failed@,
            final(self).total_flushed@ == old(self).total_flushed@,
            final(self).num_docs_in_ram == old(self).num_docs_in_ram,
            final(self).closed == old(self).closed,
            final(self).config == old(self).config,
            final(self).segment_counter == old(self).segment_counter,
            final(self).flush_control.pending_flushes@ == old(self).flush_control.pending_flushes@,
            final(self).ticket_queue == old(self).ticket_queue,
            forall|i: int|
                0 <= i < old(self).per_thread_pool.thread_states@.len()
                    ==> final(self).per_thread_pool.thread_states@[i] == old(self).per_thread_pool.thread_states@[i],
            forall|i: int|
                old(self).per_thread_pool.thread_states@.len() <= i < final(self).per_thread_pool.thread_states@.len() ==> (
                #[trigger] final(self).per_thread_pool.thread_states@[i]).dwpt is None,
    {
        while self.per_thread_pool.thread_states.len() <= thread
            invariant
                self.wf(),
                thread < MAX_THREAD_SLOTS,
                self.delete_queue == old(self).delete_queue,
                self.total_adds@ == old(self).total_adds@,
                self.total_aborted@ == old(self).total_aborted@,
                self.total_failed@ == old(self).total_failed@,
                self.total_flushed@ == old(self).total_flushed@,
                self.num_docs_in_ram == old(self).num_docs_in_ram,
                self.closed == old(self).closed,
                self.config == old(self).config,
                self.segment_counter == old(self).segment_counter,
                self.flush_control.pending_flushes@ == old(self).flush_control.pending_flushes@,
                self.ticket_queue == old(self).ticket_queue,
                forall|i: int|
                    0 <= i < old(self).per_thread_pool.thread_states@.len()
                        ==> self.per_thread_pool.thread_states@[i] == old(self).per_thread_pool.thread_states@[i],
                forall|i: int|
                    old(self).per_thread_pool.thread_states@.len() <= i
                        < self.per_thread_pool.thread_states@.len() ==> (
                    #[trigger] self.per_thread_pool.thread_states@[i]).dwpt is None,
                self.per_thread_pool.thread_states@.len() >= old(self).per_thread_pool.thread_states@.len(),
            decreases thread + 1 - self.per_thread_pool.thread_states@.len(),
        {
            let st = ThreadState { dwpt: None, last_seq_no: 0, flush_pending: false };
            proof {
                lemma_pool_docs_push_empty(self.per_thread_pool.thread_states@, st);
            }
            self.per_thread_pool.thread_states.push(st);
        }
    }

    /// Creates the slot's per-thread writer on first use.
    fn ensure_inited(&mut self, thread: usize)
        requires
            old(self).wf(),
            thread < old(self).per_thread_pool.thread_states@.len(),
            old(self).segment_counter < u64::MAX,
        ensures
            final(self).wf(),
            final(self).per_thread_pool.thread_states@.len() == old(self).per_thread_pool.thread_states@.len(),
            final(self).per_thread_pool.thread_states@[thread as int].dwpt is Some,
            final(self).delete_queue == old(self).delete_queue,
            final(self).total_adds@ == old(self).total_adds@,
            final(self).total_aborted@ == old(self).total_aborted@,
            final(self).total_failed@ == old(self).total_failed@,
            final(self).total_flushed@ == old(self).total_flushed@,
            final(self).num_docs_in_ram == old(self).num_docs_in_ram,
            final(self).closed == old(self).closed,
            final(self).config == old(self).config,
            final(self).flush_control.pending_flushes@ == old(self).flush_control.pending_flushes@,
            final(self).ticket_queue == old(self).ticket_queue,
            forall|i: int|
                0 <= i < old(self).per_thread_pool.thread_states@.len() && i != thread as int
                    ==> final(self).per_thread_pool.thread_states@[i] == old(self).per_thread_pool.thread_states@[i],
            (old(self).per_thread_pool.thread_states@[thread as int].dwpt matches Some(d) ==> final(self).per_thread_pool.thread_states@[thread as int] == old(self).per_thread_pool.thread_states@[thread as int]),
            final(self).per_thread_pool.thread_states@[thread as int].dwpt matches Some(d) && d.wf(
                final(self).delete_queue.nodes_spec().len() as int,
            ) && !d.aborted,
    {
        let present = match &self.per_thread_pool.thread_states[thread].dwpt {
            Some(_) => true,
            None => false,
        };
        if !present {
            let (name, id) = self.next_segment_identity();
            let codec = self.config.codec_name.clone();
            let dwpt = DocumentsWriterPerThread::new(
                name,
                id,
                codec,
                self.config.codec_version,
                &self.delete_queue,
            );
            let ghost states0 = self.per_thread_pool.thread_states@;
            let mut st = self.per_thread_pool.thread_states.remove(thread);
            st.dwpt = Some(dwpt);
            self.per_thread_pool.thread_states.insert(thread, st);
            proof {
                assert(self.per_thread_pool.thread_states@ =~= states0.update(thread as int, st));
                lemma_pool_docs_update(states0, thread as int, st);
            }
        }
    }
}

/// Powers of ten.
pub open spec fn pow10(k: nat) -> int
    decreases k,
{
    if k == 0 {
        1
    } else {
        10 * pow10((k - 1) as nat)
    }
}

/// Powers of ten are positive.
pub proof fn lemma_pow10_pos(k: nat)
    ensures
        pow10(k) >= 1,
    decreases k,
{
    if k > 0 {
        lemma_pow10_pos((k - 1) as nat);
    }
}

/// A number below the `k`-th power of ten has at most `k` decimal digits.
pub proof fn lemma_dec_chars_len(n: int, k: nat)
    requires
        0 <= n < pow10(k),
        1 <= k,
    ensures
        dec_chars(n).len() <= k,
    decreases k,
{
    if n < 10 {
    } else {
        if k == 1 {
            assert(pow10(0) == 1);
            assert(pow10(1) == 10 * pow10(0));
            assert(false);
        }
        let p = pow10((k - 1) as nat);
        lemma_pow10_pos((k - 1) as nat);
        assert(n < 10 * p);
        assert(n / 10 < p) by (nonlinear_arith)
            requires
                n < 10 * p,
                p >= 1,
                n >= 0,
        ;
        lemma_dec_chars_len(n / 10, (k - 1) as nat);
    }
}

/// Few decimal digits fit in a short string: a 64-bit number has at most
/// twenty digits.
pub proof fn lemma_dec_chars_short(n: int)
    requires
        0 <= n < 0x1_0000_0000_0000_0000,
    ensures
        dec_chars(n).len() <= 20,
{
    assert(pow10(0) == 1);
    assert(pow10(1) == 10);
    assert(pow10(2) == 100);
    assert(pow10(3) == 1000);
    assert(pow10(4) == 10000);
    assert(pow10(5) == 100000);
    assert(pow10(6) == 1000000);
    assert(pow10(7) == 10000000);
    assert(pow10(8) == 100000000);
    assert(pow10(9) == 1000000000);
    assert(pow10(10) == 10000000000);
    assert(pow10(11) == 100000000000);
    assert(pow10(12) == 1000000000000);
    assert(pow10(13) == 10000000000000);
    assert(pow10(14) == 100000000000000);
    assert(pow10(15) == 1000000000000000);
    assert(pow10(16) == 10000000000000000);
    assert(pow10(17) == 100000000000000000);
    assert(pow10(18) == 1000000000000000000);
    assert(pow10(19) == 10000000000000000000);
    assert(pow10(20) == 100000000000000000000);
    lemma_dec_chars_len(n, 20);
}

/// Decimal digits are plain characters whose UTF-8 form is one byte each.
pub proof fn lemma_dec_chars_ascii(n: int)
    requires
        n >= 0,
    ensures
        vstd::utf8::is_ascii_chars(dec_chars(n)),
    decreases n,
{
    if n < 10 {
        assert(dec_chars(n) =~= seq![digit_char(n)]);
        assert forall|i: int| 0 <= i < dec_chars(n).len() implies '\0' <= #[trigger] dec_chars(
            n,
        )[i] <= '\u{7f}' by {
            assert(dec_chars(n)[i] == digit_char(n));
        }
    } else {
        lemma_dec_chars_ascii(n / 10);
        assert forall|i: int| 0 <= i < dec_chars(n).len() implies '\0' <= #[trigger] dec_chars(
            n,
        )[i] <= '\u{7f}' by {
            if i < dec_chars(n).len() - 1 {
                assert(dec_chars(n)[i] == dec_chars(n / 10)[i]);
            } else {
                assert(dec_chars(n)[i] == digit_char(n % 10));
            }
        }
    }
}

/// The UTF-8 form of plain characters has one byte per character.
pub proof fn lemma_ascii_encode_len(s: Seq<char>)
    requires
        vstd::utf8::is_ascii_chars(s),
    ensures
        vstd::utf8::encode_utf8(s).len() == s.len(),
{
    vstd::utf8::is_ascii_chars_encode_utf8(s);
}

} // verus!

verus! {

impl DocumentsWriter {
    /// Binds one flushing writer to a ticket, flushes it through the codec
    /// layer into the directory, records the segment (or the failure) into
    /// the ticket, and takes its documents out of the memory accounting.
    fn flush_dwpt(&mut self, dwpt: DocumentsWriterPerThread) -> (r: Result<(), IndexError>)
        requires
            old(self).wf_core(),
            dwpt.wf(old(self).delete_queue.nodes_spec().len() as int),
            !dwpt.aborted,
            old(self).num_docs_in_ram as int == pool_docs(old(self).per_thread_pool.thread_states@)
                + pending_docs(old(self).flush_control.pending_flushes@) + dwpt.docs@.len(),
            old(self).ticket_queue.next_ticket_id < u64::MAX,
        ensures
            r is Ok,
            final(self).wf(),
            final(self).delete_queue.nodes_spec() == old(self).delete_queue.nodes_spec(),
            final(self).delete_queue.next_seq_spec() == old(self).delete_queue.next_seq_spec(),
            final(self).delete_queue.issued_spec() == old(self).delete_queue.issued_spec(),
            final(self).total_adds@ == old(self).total_adds@,
            final(self).total_aborted@ == old(self).total_aborted@,
            final(self).total_failed@ == old(self).total_failed@,
            final(self).total_flushed@ == old(self).total_flushed@ + dwpt.docs@.len(),
            final(self).per_thread_pool.thread_states@ == old(self).per_thread_pool.thread_states@,
            final(self).flush_control.pending_flushes@ == old(self).flush_control.pending_flushes@,
            final(self).ticket_queue.tickets@.len() == old(self).ticket_queue.tickets@.len() + 1,
            final(self).ticket_queue.next_ticket_id == old(self).ticket_queue.next_ticket_id + 1,
            ticket_ids(final(self).ticket_queue.tickets@) == ticket_ids(
                old(self).ticket_queue.tickets@,
            ).push(old(self).ticket_queue.next_ticket_id),
            final(self).ticket_queue.tickets@.drop_last() == old(self).ticket_queue.tickets@,
            final(self).ticket_queue.tickets@.last().is_segment_ticket,
            !final(self).ticket_queue.tickets@.last().failed,
            term_entry_views(final(self).ticket_queue.tickets@.last().frozen.terms@) == old(self).delete_queue.global_buffer().terms_spec() + window_term_deletes(
                old(self).delete_queue.nodes_spec(),
                old(self).delete_queue.global_slice_spec().head_spec(),
                old(self).delete_queue.nodes_spec().len() - 1,
            ),
            (final(self).ticket_queue.tickets@.last().segment matches Some(seg) && ({
                &&& seg.wf()
                &&& seg.docs@ == dwpt.docs@
                &&& seg.live@.len() == dwpt.docs@.len()
                &&& seg.info.name@ == dwpt.segment_name@
                &&& forall|j: int|
                    0 <= j < dwpt.docs@.len() ==> seg.live@[j] == !doc_deleted_by(
                        #[trigger] dwpt.docs@[j],
                        dwpt.pending_updates.terms_spec() + window_term_deletes(
                            old(self).delete_queue.nodes_spec(),
                            dwpt.delete_slice.head_spec(),
                            old(self).delete_queue.nodes_spec().len() - 1,
                        ),
                    )
            })),
            final(self).directory.files_spec().len() == old(self).directory.files_spec().len()
                + 1,
            final(self).directory.files_spec().take(
                old(self).directory.files_spec().len() as int,
            ) == old(self).directory.files_spec(),
            exists|payload: Seq<u8>|
                final(self).directory.files_spec().last().1
                    == #[trigger] crate::codec_util::framed_segment_file(
                    vstd::utf8::encode_utf8(dwpt.codec_name@),
                    dwpt.codec_version,
                    dwpt.segment_id@,
                    payload,
                ),
            final(self).delete_queue.global_buffer().terms_spec() == Seq::<
                (TermLiteral, u64),
            >::empty(),
            final(self).delete_queue.global_buffer().queries_spec() == Seq::<
                (Seq<char>, u64),
            >::empty(),
            final(self).delete_queue.global_slice_spec().head_spec() == final(self).delete_queue.nodes_spec().len() - 1,
            final(self).delete_queue.global_slice_spec().tail_spec() == final(self).delete_queue.nodes_spec().len() - 1,
            final(self).num_docs_in_ram as int == old(self).num_docs_in_ram - dwpt.docs@.len(),
            final(self).closed == old(self).closed,
            final(self).config == old(self).config,
            final(self).segment_counter == old(self).segment_counter,
            final(self).delete_queue.generation_spec() == old(self).delete_queue.generation_spec(),
    {
        let mut dwpt = dwpt;
        let flushing_docs_in_ram = dwpt.num_docs_in_ram;
        let frozen = dwpt.prepare_flush(&mut self.delete_queue);
        let ticket = self.ticket_queue.add_flush_ticket(frozen);
        let seg = match dwpt.flush(&mut self.directory) {
            Ok(seg) => seg,
            Err(e) => {
                proof {
                    assert(false);
                }
                return Err(e);
            },
        };
        self.ticket_queue.set_segment(ticket, seg);
        proof {
            lemma_pool_docs_nonneg(self.per_thread_pool.thread_states@);
            lemma_pending_docs_nonneg(self.flush_control.pending_flushes@);
            assert(ticket_ids(self.ticket_queue.tickets@) =~= ticket_ids(
                old(self).ticket_queue.tickets@,
            ).push(old(self).ticket_queue.next_ticket_id));
            assert(self.ticket_queue.tickets@.drop_last() =~= old(self).ticket_queue.tickets@);
        }
        self.num_docs_in_ram = self.num_docs_in_ram - flushing_docs_in_ram;
        proof {
            self.total_flushed@ = self.total_flushed@ + flushing_docs_in_ram as int;
            assert forall|i: int| 0 <= i < self.ticket_queue.tickets@.len() implies (
            #[trigger] self.ticket_queue.tickets@[i]).can_publish_spec() by {
                if i < self.ticket_queue.tickets@.len() - 1 {
                    assert(self.ticket_queue.tickets@[i] == old(self).ticket_queue.tickets@[i]);
                }
            }
        }
        Ok(())
    }

    /// Flushes one writer, then keeps flushing queued writers until the
    /// queue drains or the ticket backlog crosses the number of pool slots,
    /// in which case a forced purge is requested instead. Returns whether
    /// any event was queued.
    fn do_flush(&mut self, dwpt: DocumentsWriterPerThread) -> (r: Result<bool, IndexError>)
        requires
            old(self).wf_core(),
            dwpt.wf(old(self).delete_queue.nodes_spec().len() as int),
            !dwpt.aborted,
            old(self).num_docs_in_ram as int == pool_docs(old(self).per_thread_pool.thread_states@)
                + pending_docs(old(self).flush_control.pending_flushes@) + dwpt.docs@.len(),
            old(self).ticket_queue.next_ticket_id as int + old(self).flush_control.pending_flushes@.len() + 2 <= u64::MAX,
        ensures
            r is Ok,
            final(self).wf(),
            final(self).delete_queue.nodes_spec() == old(self).delete_queue.nodes_spec(),
            final(self).delete_queue.next_seq_spec() == old(self).delete_queue.next_seq_spec(),
            final(self).delete_queue.issued_spec() == old(self).delete_queue.issued_spec(),
            final(self).total_adds@ == old(self).total_adds@,
            final(self).total_aborted@ == old(self).total_aborted@,
            final(self).total_failed@ == old(self).total_failed@,
            final(self).per_thread_pool.thread_states@ == old(self).per_thread_pool.thread_states@,
            final(self).closed == old(self).closed,
            final(self).config == old(self).config,
            final(self).segment_counter == old(self).segment_counter,
            final(self).delete_queue.generation_spec() == old(self).delete_queue.generation_spec(),
            final(self).flush_control.pending_flushes@.len() <= old(self).flush_control.pending_flushes@.len(),
            final(self).ticket_queue.next_ticket_id as int
                + final(self).flush_control.pending_flushes@.len() <= old(self).ticket_queue.next_ticket_id as int + old(self).flush_control.pending_flushes@.len() + 1,
            final(self).ticket_queue.next_ticket_id > old(self).ticket_queue.next_ticket_id,
            final(self).total_flushed@ >= old(self).total_flushed@,
            final(self).num_docs_in_ram <= old(self).num_docs_in_ram,
            final(self).ticket_queue.tickets@.take(
                old(self).ticket_queue.tickets@.len() as int,
            ) == old(self).ticket_queue.tickets@,
            exists|m: int|
                {
                    &&& 0 <= m <= old(self).flush_control.pending_flushes@.len()
                    &&& #[trigger] old(self).flush_control.pending_flushes@.skip(m) == final(self).flush_control.pending_flushes@
                    &&& final(self).ticket_queue.tickets@.len() == old(self).ticket_queue.tickets@.len() + 1 + m
                    &&& (final(self).ticket_queue.tickets@[old(self).ticket_queue.tickets@.len() as int].segment matches Some(s)
                        && s.docs@ == dwpt.docs@ && s.wf())
                    &&& forall|j: int|
                        0 <= j < m ==> ((#[trigger] final(self).ticket_queue.tickets@[old(self).ticket_queue.tickets@.len() + 1 + j]).segment matches Some(s2)
                            && s2.docs@ == old(self).flush_control.pending_flushes@[j].docs@
                            && s2.wf())
                },
    {
        let ghost old_tlen = old(self).ticket_queue.tickets@.len() as int;
        let ghost old_pend = old(self).flush_control.pending_flushes@;
        let ghost wq = seq![dwpt] + old_pend;
        let ghost mut fc: int = 0;
        let mut has_events = false;
        let mut current: Option<DocumentsWriterPerThread> = Some(dwpt);
        while current.is_some()
            invariant
                self.wf_core(),
                self.delete_queue.nodes_spec() == old(self).delete_queue.nodes_spec(),
                self.delete_queue.next_seq_spec() == old(self).delete_queue.next_seq_spec(),
                self.delete_queue.issued_spec() == old(self).delete_queue.issued_spec(),
                self.total_adds@ == old(self).total_adds@,
                self.total_aborted@ == old(self).total_aborted@,
                self.total_failed@ == old(self).total_failed@,
                self.per_thread_pool.thread_states@ == old(self).per_thread_pool.thread_states@,
                self.closed == old(self).closed,
                self.config == old(self).config,
                self.segment_counter == old(self).segment_counter,
                self.delete_queue.generation_spec() == old(self).delete_queue.generation_spec(),
                self.flush_control.pending_flushes@.len() <= old(self).flush_control.pending_flushes@.len(),
                self.ticket_queue.next_ticket_id as int
                    + self.flush_control.pending_flushes@.len() + (if current is Some {
                    1int
                } else {
                    0int
                }) <= old(self).ticket_queue.next_ticket_id as int + old(self).flush_control.pending_flushes@.len() + 1,
                old(self).ticket_queue.next_ticket_id as int + old(self).flush_control.pending_flushes@.len() + 2 <= u64::MAX,
                self.num_docs_in_ram <= old(self).num_docs_in_ram,
                self.ticket_queue.next_ticket_id >= old(self).ticket_queue.next_ticket_id,
                self.total_flushed@ >= old(self).total_flushed@,
                current is None ==> self.ticket_queue.next_ticket_id > old(self).ticket_queue.next_ticket_id,
                match current {
                    Some(d) => d.wf(self.delete_queue.nodes_spec().len() as int) && !d.aborted
                        && self.num_docs_in_ram as int == pool_docs(
                        self.per_thread_pool.thread_states@,
                    ) + pending_docs(self.flush_control.pending_flushes@) + d.docs@.len(),
                    None => self.num_docs_in_ram as int == pool_docs(
                        self.per_thread_pool.thread_states@,
                    ) + pending_docs(self.flush_control.pending_flushes@),
                },
                old_tlen == old(self).ticket_queue.tickets@.len() as int,
                old_pend == old(self).flush_control.pending_flushes@,
                wq == seq![dwpt] + old_pend,
                fc == self.ticket_queue.tickets@.len() - old_tlen,
                0 <= fc <= wq.len(),
                self.ticket_queue.tickets@.take(old_tlen) == old(self).ticket_queue.tickets@,
                match current {
                    Some(d) => fc < wq.len() && d == wq[fc]
                        && self.flush_control.pending_flushes@ == old_pend.skip(fc),
                    None => fc >= 1 && self.flush_control.pending_flushes@ == old_pend.skip(
                        fc - 1,
                    ),
                },
                forall|j: int|
                    0 <= j < fc ==> ((#[trigger] self.ticket_queue.tickets@[old_tlen + j]).segment matches Some(s)
                        && s.docs@ == wq[j].docs@ && s.wf()),
            decreases self.flush_control.pending_flushes@.len() + (if current is Some {
                1int
            } else {
                0int
            }),
        {
            let d = match current {
                Some(d) => d,
                None => {
                    proof {
                        assert(false);
                    }
                    return Ok(false);
                },
            };
            let ghost tickets_pre = self.ticket_queue.tickets@;
            match self.flush_dwpt(d) {
                Ok(()) => (),
                Err(e) => {
                    proof {
                        assert(false);
                    }
                    return Err(e);
                },
            }
            proof {
                assert(self.ticket_queue.tickets@.drop_last() == tickets_pre);
                assert forall|i: int| 0 <= i < tickets_pre.len() implies
                    self.ticket_queue.tickets@[i] == tickets_pre[i] by {
                    assert(self.ticket_queue.tickets@.drop_last()[i] == tickets_pre[i]);
                }
                assert(self.ticket_queue.tickets@.take(old_tlen) =~= tickets_pre.take(old_tlen));
                fc = fc + 1;
                assert forall|j: int| 0 <= j < fc implies ((
                #[trigger] self.ticket_queue.tickets@[old_tlen + j]).segment matches Some(s)
                    && s.docs@ == wq[j].docs@ && s.wf()) by {
                    if j < fc - 1 {
                        assert(self.ticket_queue.tickets@[old_tlen + j]
                            == tickets_pre[old_tlen + j]);
                    } else {
                        assert(self.ticket_queue.tickets@[old_tlen + j]
                            == self.ticket_queue.tickets@.last());
                    }
                }
            }
            let backlog = self.ticket_queue.ticket_count()
                >= self.per_thread_pool.active_thread_state_count();
            if backlog {
                self.put_event(WriterEvent::ForcedPurge);
                has_events = true;
                current = None;
            } else {
                let ghost pend0 = self.flush_control.pending_flushes@;
                current = self.flush_control.next_pending_flush();
                proof {
                    if pend0.len() > 0 {
                        lemma_pending_docs_drop_first(pend0);
                        assert forall|i: int|
                            0 <= i < self.flush_control.pending_flushes@.len() implies (
                        #[trigger] self.flush_control.pending_flushes@[i]).wf(
                            self.delete_queue.nodes_spec().len() as int,
                        ) && !self.flush_control.pending_flushes@[i].aborted by {
                            assert(self.flush_control.pending_flushes@[i] == pend0[i + 1]);
                        }
                        assert(self.flush_control.pending_flushes@ =~= old_pend.skip(fc));
                        assert(old_pend.skip(fc - 1)[0] == old_pend[fc - 1]);
                    } else {
                        assert(old_pend.skip(fc - 1).len() == 0);
                    }
                }
            }
        }
        proof {
            let m = fc - 1;
            assert(old_pend.skip(m) == self.flush_control.pending_flushes@);
            assert(self.ticket_queue.tickets@[old_tlen + 0] == self.ticket_queue.tickets@[old_tlen]);
            assert(wq[0] == dwpt);
            assert((self.ticket_queue.tickets@[old_tlen].segment matches Some(s) && s.docs@
                == dwpt.docs@ && s.wf()));
            assert forall|j: int| 0 <= j < m implies ((
            #[trigger] self.ticket_queue.tickets@[old_tlen + 1 + j]).segment matches Some(s2)
                && s2.docs@ == old_pend[j].docs@ && s2.wf()) by {
                assert(wq[1 + j] == old_pend[j]);
                assert(self.ticket_queue.tickets@[old_tlen + (1 + j)]
                    == self.ticket_queue.tickets@[old_tlen + 1 + j]);
                assert((self.ticket_queue.tickets@[old_tlen + (1 + j)]).segment matches Some(s3)
                    && s3.docs@ == wq[1 + j].docs@ && s3.wf());
            }
        }
        if has_events {
            self.put_event(WriterEvent::MergePending);
        }
        Ok(has_events)
    }

    /// Helps out before an update: fails once closed, then drains queued
    /// flushes and clears any stall, so producers cooperate with the
    /// flushers instead of racing past them.
    fn pre_update(&mut self) -> (r: Result<bool, IndexError>)
        requires
            old(self).wf(),
            old(self).ticket_queue.next_ticket_id as int + old(self).flush_control.pending_flushes@.len() + 2 <= u64::MAX,
        ensures
            old(self).closed ==> r == Err::<bool, IndexError>(IndexError::AlreadyClosed)
                && *final(self) == *old(self),
            !old(self).closed ==> r is Ok && final(self).flush_control.pending_flushes@.len()
                == 0,
            final(self).wf(),
            final(self).delete_queue.nodes_spec() == old(self).delete_queue.nodes_spec(),
            final(self).delete_queue.next_seq_spec() == old(self).delete_queue.next_seq_spec(),
            final(self).delete_queue.issued_spec() == old(self).delete_queue.issued_spec(),
            final(self).total_adds@ == old(self).total_adds@,
            final(self).total_aborted@ == old(self).total_aborted@,
            final(self).total_failed@ == old(self).total_failed@,
            final(self).total_flushed@ >= old(self).total_flushed@,
            final(self).per_thread_pool.thread_states@ == old(self).per_thread_pool.thread_states@,
            final(self).closed == old(self).closed,
            final(self).config == old(self).config,
            final(self).segment_counter == old(self).segment_counter,
            final(self).ticket_queue.next_ticket_id as int + final(self).flush_control.pending_flushes@.len() <= old(self).ticket_queue.next_ticket_id as int + old(self).flush_control.pending_flushes@.len(),
            final(self).ticket_queue.next_ticket_id >= old(self).ticket_queue.next_ticket_id,
            final(self).delete_queue.generation_spec() == old(self).delete_queue.generation_spec(),
            final(self).num_docs_in_ram <= old(self).num_docs_in_ram,
    {
        match self.ensure_open() {
            Ok(()) => (),
            Err(e) => {
                return Err(e);
            },
        }
        let mut has_events = false;
        if self.flush_control.any_stalled_threads() || self.flush_control.num_queued_flushes() > 0 {
            while self.flush_control.num_queued_flushes() > 0
                invariant
                    self.wf(),
                    self.delete_queue.nodes_spec() == old(self).delete_queue.nodes_spec(),
                    self.delete_queue.next_seq_spec() == old(self).delete_queue.next_seq_spec(),
                    self.delete_queue.issued_spec() == old(self).delete_queue.issued_spec(),
                    self.total_adds@ == old(self).total_adds@,
                    self.total_aborted@ == old(self).total_aborted@,
                    self.total_failed@ == old(self).total_failed@,
                    self.per_thread_pool.thread_states@ == old(self).per_thread_pool.thread_states@,
                    self.closed == old(self).closed,
                    self.config == old(self).config,
                    self.segment_counter == old(self).segment_counter,
                    self.delete_queue.generation_spec() == old(self).delete_queue.generation_spec(),
                    self.ticket_queue.next_ticket_id as int
                        + self.flush_control.pending_flushes@.len() <= old(self).ticket_queue.next_ticket_id as int + old(self).flush_control.pending_flushes@.len(),
                    self.ticket_queue.next_ticket_id >= old(self).ticket_queue.next_ticket_id,
                    old(self).ticket_queue.next_ticket_id as int + old(self).flush_control.pending_flushes@.len() + 2 <= u64::MAX,
                    self.num_docs_in_ram <= old(self).num_docs_in_ram,
                decreases self.flush_control.pending_flushes@.len() + 1,
            {
                let ghost pend0 = self.flush_control.pending_flushes@;
                let next = self.flush_control.next_pending_flush();
                let d = match next {
                    Some(d) => d,
                    None => {
                        proof {
                            assert(false);
                        }
                        return Ok(false);
                    },
                };
                proof {
                    lemma_pending_docs_drop_first(pend0);
                    assert forall|i: int|
                        0 <= i < self.flush_control.pending_flushes@.len() implies (
                    #[trigger] self.flush_control.pending_flushes@[i]).wf(
                        self.delete_queue.nodes_spec().len() as int,
                    ) && !self.flush_control.pending_flushes@[i].aborted by {
                        assert(self.flush_control.pending_flushes@[i] == pend0[i + 1]);
                    }
                }
                let flushed = match self.do_flush(d) {
                    Ok(b) => b,
                    Err(e) => {
                        proof {
                            assert(false);
                        }
                        return Err(e);
                    },
                };
                has_events = has_events || flushed;
            }
            let _ = self.flush_control.wait_if_stalled();
        }
        Ok(has_events)
    }
}

} // verus!

verus! {

impl DocumentsWriter {
    /// Ingests one document through the caller's thread slot, binding it to
    /// the delete term if one is given, and issuing exactly one sequence
    /// number for the operation. If the slot's writer crossed a budget it is
    /// flushed before returning. Returns the sequence number and whether any
    /// event was queued.
    pub fn update_document(
        &mut self,
        thread: usize,
        doc: Vec<Field>,
        del_term: Option<Term>,
    ) -> (r: Result<(u64, bool), IndexError>)
        requires
            old(self).wf(),
            thread < MAX_THREAD_SLOTS,
            old(self).delete_queue.next_seq_spec() < u64::MAX,
            old(self).num_docs_in_ram < u32::MAX,
            old(self).segment_counter < u64::MAX,
            old(self).ticket_queue.next_ticket_id as int + old(self).flush_control.pending_flushes@.len() + 8 <= u64::MAX,
            old(self).num_docs_in_ram < 0x7FFF_FF00,
        ensures
            final(self).wf(),
            old(self).closed ==> r == Err::<(u64, bool), IndexError>(IndexError::AlreadyClosed)
                && *final(self) == *old(self),
            !old(self).closed ==> ({
                &&& r matches Ok(p) && p.0 as int == old(self).delete_queue.next_seq_spec()
                &&& final(self).delete_queue.next_seq_spec() == old(self).delete_queue.next_seq_spec() + 1
                &&& final(self).delete_queue.issued_spec() == old(self).delete_queue.issued_spec().push((old(self).delete_queue.next_seq_spec()) as u64)
                &&& final(self).total_adds@ == old(self).total_adds@ + 1
                &&& final(self).total_aborted@ == old(self).total_aborted@
                &&& final(self).total_failed@ == old(self).total_failed@
                &&& final(self).delete_queue.generation_spec() == old(self).delete_queue.generation_spec()
                &&& match del_term {
                    Some(t) => final(self).delete_queue.nodes_spec().len() == old(self).delete_queue.nodes_spec().len() + 1
                        && final(self).delete_queue.nodes_spec().drop_last() == old(self).delete_queue.nodes_spec()
                        && (final(self).delete_queue.nodes_spec().last().node matches crate::delete_queue::DeleteNode::SingleTerm(t2)
                            && t2.view_of() == t.view_of())
                        && final(self).delete_queue.nodes_spec().last().seq as int == old(self).delete_queue.next_seq_spec(),
                    None => final(self).delete_queue.nodes_spec() == old(self).delete_queue.nodes_spec(),
                }
                &&& ({
                    ||| (final(self).per_thread_pool.thread_states@.len() > thread && (final(self).per_thread_pool.thread_states@[thread as int].dwpt matches Some(d) && ({
                        &&& !should_flush_spec(old(self).config, d)
                        &&& d.docs@.len() >= 1
                        &&& d.docs@.last().fields == doc
                        &&& d.docs@.last().seq as int == old(self).delete_queue.next_seq_spec()
                        &&& match del_term {
                            Some(t) => d.docs@.last().key matches Some(k2) && k2.view_of()
                                == t.view_of(),
                            None => d.docs@.last().key is None,
                        }
                    })))
                    ||| (final(self).total_flushed@ > old(self).total_flushed@ && final(self).ticket_queue.next_ticket_id > old(self).ticket_queue.next_ticket_id
                        && exists|j: int, d: DocumentsWriterPerThread|
                            #![trigger final(self).ticket_queue.tickets@[j], should_flush_spec(old(self).config, d)]
                            {
                            &&& 0 <= j < final(self).ticket_queue.tickets@.len()
                            &&& should_flush_spec(old(self).config, d)
                            &&& d.docs@.len() >= 1
                            &&& d.docs@.last().fields == doc
                            &&& d.docs@.last().seq as int == old(self).delete_queue.next_seq_spec()
                            &&& match del_term {
                                Some(t) => d.docs@.last().key matches Some(k2) && k2.view_of()
                                    == t.view_of(),
                                None => d.docs@.last().key is None,
                            }
                            &&& (final(self).ticket_queue.tickets@[j].segment matches Some(s)
                                && s.docs@ == d.docs@ && s.wf())
                        })
                })
            }),
    {
        let has_events = match self.pre_update() {
            Ok(b) => b,
            Err(e) => {
                return Err(e);
            },
        };
        self.ensure_slot(thread);
        self.ensure_inited(thread);
        let ghost states0 = self.per_thread_pool.thread_states@;
        let mut st = self.per_thread_pool.thread_states.remove(thread);
        let mut dwpt = match st.dwpt {
            Some(d) => d,
            None => {
                proof {
                    assert(false);
                }
                return Err(IndexError::AlreadyClosed);
            },
        };
        st.dwpt = None;
        proof {
            lemma_pool_docs_nonneg(states0);
            lemma_pending_docs_nonneg(self.flush_control.pending_flushes@);
            // the slot's documents are part of the in-memory count, so the
            // writer's buffer stays within the per-segment limit
            assert(pool_docs(states0) == pool_docs(
                states0.update(thread as int, st),
            ) + dwpt.docs@.len()) by {
                lemma_pool_docs_update(states0, thread as int, st);
            }
            lemma_pool_docs_nonneg(states0.update(thread as int, st));
            assert(dwpt.docs@.len() <= self.num_docs_in_ram);
        }
        let seq = match dwpt.update_document(&mut self.delete_queue, doc, del_term) {
            Ok(s) => s,
            Err(e) => {
                proof {
                    assert(false);
                }
                return Err(e);
            },
        };
        self.num_docs_in_ram = self.num_docs_in_ram + 1;
        proof {
            self.total_adds@ = self.total_adds@ + 1;
            lemma_states_remove_keeps(
                states0,
                thread as int,
                old(self).delete_queue.nodes_spec().len() as int,
            );
            lemma_states_wf_longer(
                self.per_thread_pool.thread_states@,
                old(self).delete_queue.nodes_spec().len() as int,
                self.delete_queue.nodes_spec().len() as int,
            );
            lemma_pending_wf_longer(
                self.flush_control.pending_flushes@,
                old(self).delete_queue.nodes_spec().len() as int,
                self.delete_queue.nodes_spec().len() as int,
            );
        }
        st.last_seq_no = seq;
        if seq > self.last_seq_no {
            self.last_seq_no = seq;
        }
        let flush_now = self.flush_policy.should_flush(&self.config, &dwpt);
        let ghost fw = dwpt;
        if flush_now {
            st.flush_pending = true;
            self.per_thread_pool.thread_states.insert(thread, st);
            proof {
                assert(self.per_thread_pool.thread_states@ =~= states0.update(thread as int, st));
                lemma_pool_docs_update(states0, thread as int, st);
                lemma_pending_docs_push(self.flush_control.pending_flushes@, dwpt);
            }
            self.flush_control.enqueue_flush(dwpt);
            let ghost pend_push = self.flush_control.pending_flushes@;
            let pending_dwpt = self.flush_control.next_pending_flush();
            match pending_dwpt {
                Some(d) => {
                    proof {
                        lemma_pending_docs_drop_first(pend_push);
                        assert forall|i: int|
                            0 <= i < self.flush_control.pending_flushes@.len() implies (
                        #[trigger] self.flush_control.pending_flushes@[i]).wf(
                            self.delete_queue.nodes_spec().len() as int,
                        ) && !self.flush_control.pending_flushes@[i].aborted by {
                            assert(self.flush_control.pending_flushes@[i] == pend_push[i + 1]);
                            if i + 1 < pend_push.len() - 1 {
                                assert(pend_push[i + 1] == pend_push.drop_last()[i + 1]);
                            } else {
                                assert(pend_push[i + 1] == dwpt);
                            }
                        }
                        assert(d == pend_push[0]);
                        if pend_push.len() > 1 {
                            assert(pend_push[0] == pend_push.drop_last()[0]);
                        } else {
                            assert(pend_push[0] == dwpt);
                        }
                        assert(pend_push.len() == 1);
                        assert(d == fw);
                    }
                    let ghost tq_pre = self.ticket_queue.tickets@;
                    let ghost fd = d;
                    let flushed = match self.do_flush(d) {
                        Ok(b) => b,
                        Err(e) => {
                            proof {
                                assert(false);
                            }
                            return Err(e);
                        },
                    };
                    proof {
                        let ghost j = tq_pre.len() as int;
                        assert(should_flush_spec(old(self).config, fd));
                        assert((self.ticket_queue.tickets@[j].segment matches Some(s) && s.docs@
                            == fd.docs@ && s.wf()));
                        assert(0 <= j < self.ticket_queue.tickets@.len());
                    }
                    return Ok((seq, has_events || flushed));
                },
                None => {
                    proof {
                        assert(false);
                    }
                    return Ok((seq, has_events));
                },
            }
        } else {
            st.dwpt = Some(dwpt);
            self.per_thread_pool.thread_states.insert(thread, st);
            proof {
                assert(self.per_thread_pool.thread_states@ =~= states0.update(thread as int, st));
                lemma_pool_docs_update(states0, thread as int, st);
            }
            Ok((seq, has_events))
        }
    }

    /// Ingests a block of documents through the caller's thread slot under
    /// one sequence number; the delete term binds to the block as a whole.
    pub fn update_documents(
        &mut self,
        thread: usize,
        docs: Vec<Vec<Field>>,
        del_term: Option<Term>,
    ) -> (r: Result<(u64, bool), IndexError>)
        requires
            old(self).wf(),
            thread < MAX_THREAD_SLOTS,
            old(self).delete_queue.next_seq_spec() < u64::MAX,
            old(self).num_docs_in_ram as int + docs@.len() < 0x7FFF_FF00,
            old(self).segment_counter < u64::MAX,
            old(self).ticket_queue.next_ticket_id as int + old(self).flush_control.pending_flushes@.len() + 8 <= u64::MAX,
        ensures
            final(self).wf(),
            old(self).closed ==> r == Err::<(u64, bool), IndexError>(IndexError::AlreadyClosed)
                && *final(self) == *old(self),
            !old(self).closed ==> ({
                &&& r matches Ok(p) && p.0 as int == old(self).delete_queue.next_seq_spec()
                &&& final(self).delete_queue.next_seq_spec() == old(self).delete_queue.next_seq_spec() + 1
                &&& final(self).delete_queue.issued_spec() == old(self).delete_queue.issued_spec().push((old(self).delete_queue.next_seq_spec()) as u64)
                &&& final(self).total_adds@ == old(self).total_adds@ + docs@.len()
                &&& final(self).total_aborted@ == old(self).total_aborted@
                &&& final(self).total_failed@ == old(self).total_failed@
                &&& final(self).delete_queue.generation_spec() == old(self).delete_queue.generation_spec()
                &&& match del_term {
                    Some(t) => final(self).delete_queue.nodes_spec().len() == old(self).delete_queue.nodes_spec().len() + 1
                        && final(self).delete_queue.nodes_spec().drop_last() == old(self).delete_queue.nodes_spec()
                        && (final(self).delete_queue.nodes_spec().last().node matches crate::delete_queue::DeleteNode::SingleTerm(t2)
                            && t2.view_of() == t.view_of())
                        && final(self).delete_queue.nodes_spec().last().seq as int == old(self).delete_queue.next_seq_spec(),
                    None => final(self).delete_queue.nodes_spec() == old(self).delete_queue.nodes_spec(),
                }
                &&& ({
                    ||| (final(self).per_thread_pool.thread_states@.len() > thread && (final(self).per_thread_pool.thread_states@[thread as int].dwpt matches Some(d) && ({
                        &&& !should_flush_spec(old(self).config, d)
                        &&& d.docs@.len() >= docs@.len()
                        &&& forall|i: int|
                            0 <= i < docs@.len() ==> {
                                let sd = #[trigger] d.docs@[d.docs@.len() - docs@.len() + i];
                                &&& sd.fields == docs@[i]
                                &&& sd.seq as int == old(self).delete_queue.next_seq_spec()
                                &&& match del_term {
                                    Some(t) => sd.key matches Some(k2) && k2.view_of()
                                        == t.view_of(),
                                    None => sd.key is None,
                                }
                            }
                    })))
                    ||| (final(self).total_flushed@ >= old(self).total_flushed@ && final(self).ticket_queue.next_ticket_id > old(self).ticket_queue.next_ticket_id
                        && exists|j: int, d: DocumentsWriterPerThread|
                            #![trigger final(self).ticket_queue.tickets@[j], should_flush_spec(old(self).config, d)]
                            {
                            &&& 0 <= j < final(self).ticket_queue.tickets@.len()
                            &&& should_flush_spec(old(self).config, d)
                            &&& d.docs@.len() >= docs@.len()
                            &&& forall|i: int|
                                0 <= i < docs@.len() ==> {
                                    let sd = #[trigger] d.docs@[d.docs@.len() - docs@.len() + i];
                                    &&& sd.fields == docs@[i]
                                    &&& sd.seq as int == old(self).delete_queue.next_seq_spec()
                                    &&& match del_term {
                                        Some(t) => sd.key matches Some(k2) && k2.view_of()
                                            == t.view_of(),
                                        None => sd.key is None,
                                    }
                                }
                            &&& (final(self).ticket_queue.tickets@[j].segment matches Some(s)
                                && s.docs@ == d.docs@ && s.wf())
                        })
                })
            }),
    {
        let block_len = docs.len();
        let has_events = match self.pre_update() {
            Ok(b) => b,
            Err(e) => {
                return Err(e);
            },
        };
        self.ensure_slot(thread);
        self.ensure_inited(thread);
        let ghost states0 = self.per_thread_pool.thread_states@;
        let mut st = self.per_thread_pool.thread_states.remove(thread);
        let mut dwpt = match st.dwpt {
            Some(d) => d,
            None => {
                proof {
                    assert(false);
                }
                return Err(IndexError::AlreadyClosed);
            },
        };
        st.dwpt = None;
        proof {
            lemma_pool_docs_nonneg(states0);
            lemma_pending_docs_nonneg(self.flush_control.pending_flushes@);
            assert(pool_docs(states0) == pool_docs(
                states0.update(thread as int, st),
            ) + dwpt.docs@.len()) by {
                lemma_pool_docs_update(states0, thread as int, st);
            }
            lemma_pool_docs_nonneg(states0.update(thread as int, st));
            assert(dwpt.docs@.len() <= self.num_docs_in_ram);
        }
        let seq = match dwpt.update_documents(&mut self.delete_queue, docs, del_term) {
            Ok(s) => s,
            Err(e) => {
                proof {
                    assert(false);
                }
                return Err(e);
            },
        };
        self.num_docs_in_ram = self.num_docs_in_ram + (block_len as u32);
        proof {
            self.total_adds@ = self.total_adds@ + block_len as int;
            lemma_states_remove_keeps(
                states0,
                thread as int,
                old(self).delete_queue.nodes_spec().len() as int,
            );
            lemma_states_wf_longer(
                self.per_thread_pool.thread_states@,
                old(self).delete_queue.nodes_spec().len() as int,
                self.delete_queue.nodes_spec().len() as int,
            );
            lemma_pending_wf_longer(
                self.flush_control.pending_flushes@,
                old(self).delete_queue.nodes_spec().len() as int,
                self.delete_queue.nodes_spec().len() as int,
            );
        }
        st.last_seq_no = seq;
        if seq > self.last_seq_no {
            self.last_seq_no = seq;
        }
        let flush_now = self.flush_policy.should_flush(&self.config, &dwpt);
        let ghost fw = dwpt;
        if flush_now {
            st.flush_pending = true;
            self.per_thread_pool.thread_states.insert(thread, st);
            proof {
                assert(self.per_thread_pool.thread_states@ =~= states0.update(thread as int, st));
                lemma_pool_docs_update(states0, thread as int, st);
                lemma_pending_docs_push(self.flush_control.pending_flushes@, dwpt);
            }
            self.flush_control.enqueue_flush(dwpt);
            let ghost pend_push = self.flush_control.pending_flushes@;
            let pending_dwpt = self.flush_control.next_pending_flush();
            match pending_dwpt {
                Some(d) => {
                    proof {
                        lemma_pending_docs_drop_first(pend_push);
                        assert forall|i: int|
                            0 <= i < self.flush_control.pending_flushes@.len() implies (
                        #[trigger] self.flush_control.pending_flushes@[i]).wf(
                            self.delete_queue.nodes_spec().len() as int,
                        ) && !self.flush_control.pending_flushes@[i].aborted by {
                            assert(self.flush_control.pending_flushes@[i] == pend_push[i + 1]);
                            if i + 1 < pend_push.len() - 1 {
                                assert(pend_push[i + 1] == pend_push.drop_last()[i + 1]);
                            } else {
                                assert(pend_push[i + 1] == dwpt);
                            }
                        }
                        assert(d == pend_push[0]);
                        if pend_push.len() > 1 {
                            assert(pend_push[0] == pend_push.drop_last()[0]);
                        } else {
                            assert(pend_push[0] == dwpt);
                        }
                        assert(pend_push.len() == 1);
                        assert(d == fw);
                    }
                    let ghost tq_pre = self.ticket_queue.tickets@;
                    let ghost fd = d;
                    let flushed = match self.do_flush(d) {
                        Ok(b) => b,
                        Err(e) => {
                            proof {
                                assert(false);
                            }
                            return Err(e);
                        },
                    };
                    proof {
                        let ghost j = tq_pre.len() as int;
                        assert(should_flush_spec(old(self).config, fd));
                        assert((self.ticket_queue.tickets@[j].segment matches Some(s) && s.docs@
                            == fd.docs@ && s.wf()));
                        assert(0 <= j < self.ticket_queue.tickets@.len());
                    }
                    return Ok((seq, has_events || flushed));
                },
                None => {
                    proof {
                        assert(false);
                    }
                    return Ok((seq, has_events));
                },
            }
        } else {
            st.dwpt = Some(dwpt);
            self.per_thread_pool.thread_states.insert(thread, st);
            proof {
                assert(self.per_thread_pool.thread_states@ =~= states0.update(thread as int, st));
                lemma_pool_docs_update(states0, thread as int, st);
            }
            Ok((seq, has_events))
        }
    }
}

} // verus!

verus! {

/// Law: the memory accounting balances. At every quiescent point, the
/// number of documents sitting in memory plus everything flushes moved out
/// equals everything that was added, less what aborts discarded and what
/// failed flushes lost.
pub proof fn lemma_ram_accounting(w: DocumentsWriter)
    requires
        w.wf(),
    ensures
        w.num_docs_in_ram as int + w.total_flushed@ == w.total_adds@ - w.total_aborted@
            - w.total_failed@,
{
}

impl DocumentsWriter {
    /// Discards one slot's writer, accounting its documents as aborted.
    fn abort_thread_state(&mut self, thread: usize) -> (r: u32)
        requires
            old(self).wf(),
            thread < old(self).per_thread_pool.thread_states@.len(),
        ensures
            final(self).wf(),
            final(self).per_thread_pool.thread_states@.len() == old(self).per_thread_pool.thread_states@.len(),
            final(self).per_thread_pool.thread_states@[thread as int].dwpt is None,
            final(self).delete_queue == old(self).delete_queue,
            final(self).total_adds@ == old(self).total_adds@,
            final(self).flush_control.pending_flushes@ == old(self).flush_control.pending_flushes@,
            final(self).ticket_queue == old(self).ticket_queue,
            final(self).closed == old(self).closed,
            final(self).config == old(self).config,
            final(self).per_thread_pool.aborted == old(self).per_thread_pool.aborted,
            forall|i: int|
                0 <= i < old(self).per_thread_pool.thread_states@.len() && i != thread as int
                    ==> final(self).per_thread_pool.thread_states@[i] == old(self).per_thread_pool.thread_states@[i],
    {
        let ghost states0 = self.per_thread_pool.thread_states@;
        let mut st = self.per_thread_pool.thread_states.remove(thread);
        let aborted_docs: u32 = match st.dwpt {
            Some(mut d) => {
                let n = d.num_docs_in_ram;
                d.abort();
                st.dwpt = None;
                n
            },
            None => 0,
        };
        self.per_thread_pool.thread_states.insert(thread, st);
        proof {
            assert(self.per_thread_pool.thread_states@ =~= states0.update(thread as int, st));
            lemma_pool_docs_update(states0, thread as int, st);
            lemma_pool_docs_nonneg(states0.update(thread as int, st));
            lemma_pool_docs_nonneg(states0);
            lemma_pending_docs_nonneg(self.flush_control.pending_flushes@);
        }
        self.num_docs_in_ram = self.num_docs_in_ram - aborted_docs;
        proof {
            self.total_aborted@ = self.total_aborted@ + aborted_docs as int;
        }
        aborted_docs
    }

    /// Discards every queued flush, accounting their documents as aborted.
    fn abort_queued_flushes(&mut self) -> (r: u32)
        requires
            old(self).wf(),
        ensures
            final(self).wf(),
            final(self).flush_control.pending_flushes@.len() == 0,
            final(self).per_thread_pool == old(self).per_thread_pool,
            final(self).delete_queue == old(self).delete_queue,
            final(self).total_adds@ == old(self).total_adds@,
            final(self).total_flushed@ == old(self).total_flushed@,
            final(self).total_failed@ == old(self).total_failed@,
            final(self).total_aborted@ == old(self).total_aborted@ + pending_docs(
                old(self).flush_control.pending_flushes@,
            ),
            final(self).ticket_queue == old(self).ticket_queue,
            final(self).closed == old(self).closed,
            final(self).config == old(self).config,
    {
        let mut dropped: u32 = 0;
        while self.flush_control.num_queued_flushes() > 0
            invariant
                self.wf(),
                self.per_thread_pool == old(self).per_thread_pool,
                self.delete_queue == old(self).delete_queue,
                self.total_adds@ == old(self).total_adds@,
                self.total_flushed@ == old(self).total_flushed@,
                self.total_failed@ == old(self).total_failed@,
                self.total_aborted@ + pending_docs(self.flush_control.pending_flushes@) == old(self).total_aborted@ + pending_docs(old(self).flush_control.pending_flushes@),
                self.ticket_queue == old(self).ticket_queue,
                self.closed == old(self).closed,
                self.config == old(self).config,
            decreases self.flush_control.pending_flushes@.len(),
        {
            let ghost pend0 = self.flush_control.pending_flushes@;
            let next = self.flush_control.next_pending_flush();
            match next {
                Some(mut d) => {
                    proof {
                        lemma_pending_docs_drop_first(pend0);
                        assert forall|i: int|
                            0 <= i < self.flush_control.pending_flushes@.len() implies (
                        #[trigger] self.flush_control.pending_flushes@[i]).wf(
                            self.delete_queue.nodes_spec().len() as int,
                        ) && !self.flush_control.pending_flushes@[i].aborted by {
                            assert(self.flush_control.pending_flushes@[i] == pend0[i + 1]);
                        }
                        lemma_pool_docs_nonneg(self.per_thread_pool.thread_states@);
                        lemma_pending_docs_nonneg(self.flush_control.pending_flushes@);
                    }
                    let n = d.num_docs_in_ram;
                    d.abort();
                    self.num_docs_in_ram = self.num_docs_in_ram - n;
                    proof {
                        self.total_aborted@ = self.total_aborted@ + n as int;
                    }
                    dropped = if dropped <= u32::MAX - n {
                        dropped + n
                    } else {
                        u32::MAX
                    };
                },
                None => {
                    proof {
                        assert(false);
                    }
                },
            }
        }
        dropped
    }

    /// Called on an exception at a bad time: resets the delete window,
    /// discards every buffered document, and drops the queued flushes.
    pub fn abort(&mut self) -> (r: Result<(), IndexError>)
        requires
            old(self).wf(),
        ensures
            r is Ok,
            final(self).wf(),
            final(self).num_docs_in_ram == 0,
            final(self).flush_control.pending_flushes@.len() == 0,
            final(self).total_adds@ == old(self).total_adds@,
            final(self).delete_queue.next_seq_spec() == old(self).delete_queue.next_seq_spec(),
            final(self).delete_queue.nodes_spec() == old(self).delete_queue.nodes_spec(),
            final(self).delete_queue.issued_spec() == old(self).delete_queue.issued_spec(),
            final(self).delete_queue.global_slice_spec().head_spec() == final(self).delete_queue.nodes_spec().len() - 1,
            final(self).delete_queue.global_slice_spec().tail_spec() == final(self).delete_queue.nodes_spec().len() - 1,
    {
        let _ = self.delete_queue.clear();
        let ghost q0 = self.delete_queue;
        let n = self.per_thread_pool.active_thread_state_count();
        let mut i: usize = 0;
        while i < n
            invariant
                self.wf(),
                0 <= i <= n,
                n == self.per_thread_pool.thread_states@.len(),
                self.total_adds@ == old(self).total_adds@,
                self.delete_queue == q0,
                forall|k: int|
                    0 <= k < i ==> (
                    #[trigger] self.per_thread_pool.thread_states@[k]).dwpt is None,
            decreases n - i,
        {
            let _ = self.abort_thread_state(i);
            i = i + 1;
        }
        let _ = self.abort_queued_flushes();
        proof {
            lemma_pool_docs_all_none(self.per_thread_pool.thread_states@);
        }
        Ok(())
    }

    /// Aborts everything and reserves a sequence-number gap to jump over any
    /// in-flight operations; returns how many buffered documents were
    /// discarded.
    pub fn lock_and_abort_all(&mut self) -> (r: Result<u32, IndexError>)
        requires
            old(self).wf(),
            old(self).delete_queue.next_seq_spec() + old(self).per_thread_pool.thread_states@.len() + 1 <= u64::MAX,
        ensures
            r matches Ok(n) && n == old(self).num_docs_in_ram,
            final(self).wf(),
            final(self).num_docs_in_ram == 0,
            final(self).per_thread_pool.aborted,
            final(self).flush_control.pending_flushes@.len() == 0,
            final(self).total_adds@ == old(self).total_adds@,
            final(self).delete_queue.next_seq_spec() == old(self).delete_queue.next_seq_spec()
                + old(self).per_thread_pool.thread_states@.len() + 1,
            final(self).delete_queue.nodes_spec() == old(self).delete_queue.nodes_spec(),
            final(self).delete_queue.issued_spec() == old(self).delete_queue.issued_spec(),
            final(self).delete_queue.global_slice_spec().head_spec() == final(self).delete_queue.nodes_spec().len() - 1,
            final(self).delete_queue.global_slice_spec().tail_spec() == final(self).delete_queue.nodes_spec().len() - 1,
    {
        let aborted_doc_count = self.num_docs_in_ram;
        let _ = self.delete_queue.clear();
        let ghost q0 = self.delete_queue;
        self.per_thread_pool.set_abort();
        let n = self.per_thread_pool.active_thread_state_count();
        let mut i: usize = 0;
        while i < n
            invariant
                self.wf(),
                0 <= i <= n,
                n == self.per_thread_pool.thread_states@.len(),
                self.total_adds@ == old(self).total_adds@,
                self.per_thread_pool.aborted,
                self.delete_queue == q0,
                forall|k: int|
                    0 <= k < i ==> (
                    #[trigger] self.per_thread_pool.thread_states@[k]).dwpt is None,
            decreases n - i,
        {
            let ghost aborted0 = self.per_thread_pool.aborted;
            let _ = self.abort_thread_state(i);
            proof {
                assert(self.per_thread_pool.aborted == aborted0);
            }
            i = i + 1;
        }
        let _ = self.abort_queued_flushes();
        let _ = self.delete_queue.clear();
        proof {
            self.delete_queue.lemma_wf_facts();
        }
        let jump = (self.per_thread_pool.active_thread_state_count() as u64) + 1;
        self.delete_queue.skip_sequence_number(jump);
        proof {
            lemma_pool_docs_all_none(self.per_thread_pool.thread_states@);
        }
        Ok(aborted_doc_count)
    }

    /// Publishes ready tickets to the index: forcefully (walking every ready
    /// ticket) or opportunistically. Returns how many were published.
    pub fn purge_buffer(&mut self, index: &mut PublishedIndex, forced: bool) -> (r: Result<
        u32,
        IndexError,
    >)
        requires
            old(self).wf(),
            old(index).wf(),
            old(self).ticket_queue.tickets@.len() <= u32::MAX,
        ensures
            final(self).wf(),
            final(index).wf(),
            exists|k: int|
                {
                    &&& 0 <= k <= old(self).ticket_queue.tickets@.len()
                    &&& final(self).ticket_queue.tickets@ == old(self).ticket_queue.tickets@.skip(k)
                    &&& final(index).published_tickets() == old(index).published_tickets() + (
                    #[trigger] old(self).ticket_queue.tickets@.take(k)).map_values(
                        |t: FlushTicket| t.ticket_id,
                    )
                    &&& published_all(
                        old(index).segments_spec(),
                        old(self).ticket_queue.tickets@.take(k),
                        final(index).segments_spec(),
                    )
                    &&& r == Ok::<u32, IndexError>(k as u32)
                },
            final(self).ticket_queue.tickets@.len() == 0 || !final(self).ticket_queue.tickets@[0].can_publish_spec(),
            final(self).ticket_queue.next_ticket_id == old(self).ticket_queue.next_ticket_id,
            final(self).total_adds@ == old(self).total_adds@,
            final(self).num_docs_in_ram == old(self).num_docs_in_ram,
            final(self).delete_queue == old(self).delete_queue,
    {
        let r = if forced {
            self.ticket_queue.force_purge(index)
        } else {
            self.ticket_queue.try_purge(index)
        };
        match r {
            Ok(n) => Ok(n),
            Err(e) => {
                proof {
                    assert(false);
                }
                Err(e)
            },
        }
    }

    /// Ends a full flush: normally, or cancelling it and discarding what was
    /// queued.
    pub fn finish_full_flush(&mut self, success: bool)
        requires
            old(self).wf(),
        ensures
            final(self).wf(),
            !final(self).flush_control.full_flush_in_progress,
            !final(self).pending_changes_in_current_full_flush,
            final(self).total_adds@ == old(self).total_adds@,
            success ==> final(self).flush_control.pending_flushes@ == old(self).flush_control.pending_flushes@ && final(self).total_aborted@ == old(self).total_aborted@,
            !success ==> final(self).flush_control.pending_flushes@.len() == 0 && final(self).total_aborted@ == old(self).total_aborted@ + pending_docs(
                old(self).flush_control.pending_flushes@,
            ),
    {
        if success {
            self.flush_control.finish_full_flush();
        } else {
            let _ = self.abort_queued_flushes();
            self.flush_control.abort_full_flushes();
        }
        self.pending_changes_in_current_full_flush = false;
    }
}

/// A pool whose slots are all empty holds no documents.
pub proof fn lemma_pool_docs_all_none(states: Seq<ThreadState>)
    requires
        forall|k: int| 0 <= k < states.len() ==> (#[trigger] states[k]).dwpt is None,
    ensures
        pool_docs(states) == 0,
    decreases states.len(),
{
    if states.len() > 0 {
        lemma_pool_docs_all_none(states.drop_last());
    }
}

} // verus!

verus! {

impl DocumentsWriter {
    /// Flushes every per-thread writer and publishes everything to the
    /// index: marks a full flush, flushes each held writer and each queued
    /// one against the delete queue they were built on, enqueues a
    /// deletes-only ticket if nothing was flushed but deletes are pending,
    /// swaps in a fresh delete queue for the next generation, and forces the
    /// publication queue empty. Returns whether anything was flushed and the
    /// sequence-number boundary of the flush.
    #[verifier::rlimit(100)]
    pub fn flush_all_threads(&mut self, index: &mut PublishedIndex) -> (r: Result<
        (bool, u64),
        IndexError,
    >)
        requires
            old(self).wf(),
            old(index).wf(),
            old(self).ticket_queue.next_ticket_id as int + old(self).per_thread_pool.thread_states@.len() + old(self).flush_control.pending_flushes@.len() + 2 <= u64::MAX,
            old(self).ticket_queue.tickets@.len() + old(self).per_thread_pool.thread_states@.len()
                + old(self).flush_control.pending_flushes@.len() + 2 <= u32::MAX,
            old(self).delete_queue.generation_spec() < u64::MAX,
        ensures
            final(self).wf(),
            final(index).wf(),
            r matches Ok(p) && p.1 as int == old(self).delete_queue.next_seq_spec(),
            final(self).num_docs_in_ram == 0,
            final(self).ticket_queue.tickets@.len() == 0,
            final(self).flush_control.pending_flushes@.len() == 0,
            final(self).total_adds@ == old(self).total_adds@,
            final(self).delete_queue.next_seq_spec() == old(self).delete_queue.next_seq_spec(),
            final(self).delete_queue.generation_spec() == old(self).delete_queue.generation_spec() + 1,
            forall|i: int|
                0 <= i < final(self).per_thread_pool.thread_states@.len() ==> (
                #[trigger] final(self).per_thread_pool.thread_states@[i]).dwpt is None,
            final(index).published_tickets() == old(index).published_tickets() + ticket_ids(
                old(self).ticket_queue.tickets@,
            ) + id_range(
                old(self).ticket_queue.next_ticket_id as int,
                final(self).ticket_queue.next_ticket_id as int - old(self).ticket_queue.next_ticket_id as int,
            ),
            r matches Ok(p) && p.0 == ((exists|i: int|
                0 <= i < old(self).per_thread_pool.thread_states@.len() && (
                #[trigger] old(self).per_thread_pool.thread_states@[i]).dwpt is Some) || old(self).flush_control.pending_flushes@.len() > 0),
            (r matches Ok(p) && !p.0) ==> final(self).ticket_queue.next_ticket_id as int == old(self).ticket_queue.next_ticket_id as int + (
            if old(self).delete_queue.global_buffer().terms_spec().len() > 0 || old(self).delete_queue.global_buffer().queries_spec().len() > 0 || old(self).delete_queue.global_slice_spec().head_spec() != old(self).delete_queue.global_slice_spec().tail_spec() || old(self).delete_queue.global_slice_spec().tail_spec() != old(self).delete_queue.nodes_spec().len() - 1 {
                1int
            } else {
                0int
            }),
            exists|ts: Seq<FlushTicket>|
                #![trigger published_all(
                    old(index).segments_spec(),
                    old(self).ticket_queue.tickets@ + ts,
                    final(index).segments_spec(),
                )]
                {
                    &&& published_all(
                        old(index).segments_spec(),
                        old(self).ticket_queue.tickets@ + ts,
                        final(index).segments_spec(),
                    )
                    &&& pool_buffers(old(self).per_thread_pool.thread_states@).len()
                        + old(self).flush_control.pending_flushes@.len() <= ts.len()
                        <= pool_buffers(old(self).per_thread_pool.thread_states@).len()
                        + old(self).flush_control.pending_flushes@.len() + 1
                    &&& forall|j: int|
                        0 <= j < pool_buffers(old(self).per_thread_pool.thread_states@).len()
                            ==> ((#[trigger] ts[j]).segment matches Some(s) && s.docs@
                            == pool_buffers(old(self).per_thread_pool.thread_states@)[j]
                            && s.wf())
                    &&& forall|j: int|
                        0 <= j < old(self).flush_control.pending_flushes@.len() ==> ((
                        #[trigger] ts[pool_buffers(old(self).per_thread_pool.thread_states@).len()
                            + j]).segment matches Some(s) && s.docs@ == old(self).flush_control.pending_flushes@[j].docs@ && s.wf())
                    &&& forall|j: int|
                        pool_buffers(old(self).per_thread_pool.thread_states@).len() + old(self).flush_control.pending_flushes@.len() <= j < ts.len() ==> ((
                        #[trigger] ts[j]).segment is None && term_entry_views(ts[j].frozen.terms@)
                            == old(self).delete_queue.global_buffer().terms_spec()
                            + window_term_deletes(
                            old(self).delete_queue.nodes_spec(),
                            old(self).delete_queue.global_slice_spec().head_spec(),
                            old(self).delete_queue.nodes_spec().len() - 1,
                        ))
                    &&& (pool_buffers(old(self).per_thread_pool.thread_states@).len() + old(self).flush_control.pending_flushes@.len() > 0
                        ==> term_entry_views(ts[0].frozen.terms@) == old(self).delete_queue.global_buffer().terms_spec()
                            + window_term_deletes(
                            old(self).delete_queue.nodes_spec(),
                            old(self).delete_queue.global_slice_spec().head_spec(),
                            old(self).delete_queue.nodes_spec().len() - 1,
                        ))
                    &&& forall|j: int|
                        1 <= j < pool_buffers(old(self).per_thread_pool.thread_states@).len() + old(self).flush_control.pending_flushes@.len()
                            ==> term_entry_views((#[trigger] ts[j]).frozen.terms@) == Seq::<
                            (TermLiteral, u64),
                        >::empty()
                },
    {
        let any = self.any_changes();
        self.pending_changes_in_current_full_flush = any;
        self.flush_control.full_flush_in_progress = true;
        proof {
            self.delete_queue.lemma_wf_facts();
        }
        let seq_boundary = self.delete_queue.last_sequence_number() + 1;
        let mut anything_flushed = false;
        let ghost old_tlen = old(self).ticket_queue.tickets@.len() as int;
        let ghost old_states = old(self).per_thread_pool.thread_states@;
        let ghost old_pend = old(self).flush_control.pending_flushes@;
        let ghost nb = pool_buffers(old_states).len() as int;
        // flush every held writer against the queue its window indexes
        let n = self.per_thread_pool.active_thread_state_count();
        let mut i: usize = 0;
        proof {
            assert(old_states.take(0int) =~= Seq::<ThreadState>::empty());
            assert(self.ticket_queue.tickets@.take(old_tlen) =~= self.ticket_queue.tickets@);
        }
        while i < n
            invariant
                self.wf(),
                0 <= i <= n,
                n == self.per_thread_pool.thread_states@.len(),
                self.total_adds@ == old(self).total_adds@,
                self.delete_queue.next_seq_spec() == old(self).delete_queue.next_seq_spec(),
                self.delete_queue.generation_spec() == old(self).delete_queue.generation_spec(),
                self.ticket_queue.next_ticket_id as int + (n - i) as int
                    + self.flush_control.pending_flushes@.len() + 2 <= u64::MAX,
                self.ticket_queue.tickets@.len() <= old(self).ticket_queue.tickets@.len()
                    + i as int,
                self.flush_control.pending_flushes@ == old(self).flush_control.pending_flushes@,
                self.ticket_queue.next_ticket_id >= old(self).ticket_queue.next_ticket_id,
                ticket_ids(self.ticket_queue.tickets@) == ticket_ids(
                    old(self).ticket_queue.tickets@,
                ) + id_range(
                    old(self).ticket_queue.next_ticket_id as int,
                    self.ticket_queue.next_ticket_id as int - old(self).ticket_queue.next_ticket_id as int,
                ),
                anything_flushed == (exists|k: int|
                    0 <= k < i && (
                    #[trigger] old(self).per_thread_pool.thread_states@[k]).dwpt is Some),
                !anything_flushed ==> self.ticket_queue == old(self).ticket_queue
                    && self.delete_queue == old(self).delete_queue,
                forall|k: int|
                    i <= k < n ==> self.per_thread_pool.thread_states@[k] == old(self).per_thread_pool.thread_states@[k],
                forall|k: int|
                    0 <= k < i ==> (
                    #[trigger] self.per_thread_pool.thread_states@[k]).dwpt is None,
                old_tlen == old(self).ticket_queue.tickets@.len() as int,
                old_states == old(self).per_thread_pool.thread_states@,
                old_states.len() == n as int,
                self.ticket_queue.tickets@.take(old_tlen) == old(self).ticket_queue.tickets@,
                self.ticket_queue.tickets@.len() == old_tlen + pool_buffers(
                    old_states.take(i as int),
                ).len(),
                forall|j: int|
                    0 <= j < pool_buffers(old_states.take(i as int)).len() ==> ((
                    #[trigger] self.ticket_queue.tickets@[old_tlen + j]).segment matches Some(s)
                        && s.docs@ == pool_buffers(old_states.take(i as int))[j] && s.wf()),
                pool_buffers(old_states.take(i as int)).len() > 0 ==> ({
                    &&& self.delete_queue.nodes_spec() == old(self).delete_queue.nodes_spec()
                    &&& self.delete_queue.global_buffer().terms_spec() == Seq::<
                        (TermLiteral, u64),
                    >::empty()
                    &&& self.delete_queue.global_slice_spec().head_spec()
                        == self.delete_queue.nodes_spec().len() - 1
                    &&& self.delete_queue.global_slice_spec().tail_spec()
                        == self.delete_queue.nodes_spec().len() - 1
                    &&& term_entry_views(
                        self.ticket_queue.tickets@[old_tlen].frozen.terms@,
                    ) == old(self).delete_queue.global_buffer().terms_spec()
                        + window_term_deletes(
                        old(self).delete_queue.nodes_spec(),
                        old(self).delete_queue.global_slice_spec().head_spec(),
                        old(self).delete_queue.nodes_spec().len() - 1,
                    )
                }),
                forall|j: int|
                    1 <= j < pool_buffers(old_states.take(i as int)).len()
                        ==> term_entry_views(
                        (#[trigger] self.ticket_queue.tickets@[old_tlen + j]).frozen.terms@,
                    ) == Seq::<(TermLiteral, u64)>::empty(),
            decreases n - i,
        {
            let ghost states0 = self.per_thread_pool.thread_states@;
            let mut st = self.per_thread_pool.thread_states.remove(i);
            let taken = st.dwpt;
            st.dwpt = None;
            self.per_thread_pool.thread_states.insert(i, st);
            proof {
                assert(self.per_thread_pool.thread_states@ =~= states0.update(i as int, st));
                lemma_pool_docs_update(states0, i as int, st);
            }
            match taken {
                Some(d) => {
                    proof {
                        lemma_pool_docs_nonneg(self.per_thread_pool.thread_states@);
                        lemma_pending_docs_nonneg(self.flush_control.pending_flushes@);
                    }
                    let ghost tq_pre = self.ticket_queue.tickets@;
                    proof {
                        if pool_buffers(old_states.take(i as int)).len() == 0 {
                            lemma_pool_buffers_empty(old_states.take(i as int));
                            assert forall|k: int| 0 <= k < i implies (
                            #[trigger] old_states[k]).dwpt is None by {
                                assert(old_states.take(i as int)[k] == old_states[k]);
                            }
                            assert(!anything_flushed);
                        }
                    }
                    match self.flush_dwpt(d) {
                        Ok(()) => (),
                        Err(e) => {
                            proof {
                                assert(false);
                            }
                            return Err(e);
                        },
                    }
                    anything_flushed = true;
                    proof {
                        lemma_pool_buffers_take_step(old_states, i as int);
                        assert(self.ticket_queue.tickets@.drop_last() == tq_pre);
                        assert forall|k: int| 0 <= k < tq_pre.len() implies
                            self.ticket_queue.tickets@[k] == tq_pre[k] by {
                            assert(self.ticket_queue.tickets@.drop_last()[k] == tq_pre[k]);
                        }
                        assert(self.ticket_queue.tickets@.take(old_tlen) =~= tq_pre.take(
                            old_tlen,
                        ));
                        let pb = pool_buffers(old_states.take(i as int + 1));
                        assert forall|j: int| 0 <= j < pb.len() implies ((
                        #[trigger] self.ticket_queue.tickets@[old_tlen + j]).segment matches Some(
                            s,
                        ) && s.docs@ == pb[j] && s.wf()) by {
                            if j < pb.len() - 1 {
                                assert(self.ticket_queue.tickets@[old_tlen + j]
                                    == tq_pre[old_tlen + j]);
                                assert(pb[j] == pool_buffers(old_states.take(i as int))[j]);
                            } else {
                                assert(self.ticket_queue.tickets@[old_tlen + j]
                                    == self.ticket_queue.tickets@.last());
                                assert(pb[j] == d.docs@);
                            }
                        }
                        if pool_buffers(old_states.take(i as int)).len() == 0 {
                            assert(self.ticket_queue.tickets@[old_tlen]
                                == self.ticket_queue.tickets@.last());
                        }
                        assert forall|j: int| 1 <= j < pb.len() implies term_entry_views(
                            (#[trigger] self.ticket_queue.tickets@[old_tlen + j]).frozen.terms@,
                        ) == Seq::<(TermLiteral, u64)>::empty() by {
                            if j < pb.len() - 1 {
                                assert(self.ticket_queue.tickets@[old_tlen + j]
                                    == tq_pre[old_tlen + j]);
                            } else {
                                assert(self.ticket_queue.tickets@[old_tlen + j]
                                    == self.ticket_queue.tickets@.last());
                            }
                        }
                    }
                },
                None => {
                    proof {
                        lemma_pool_buffers_take_step(old_states, i as int);
                        assert(pool_buffers(old_states.take(i as int + 1)) =~= pool_buffers(
                            old_states.take(i as int),
                        ));
                    }
                },
            }
            i = i + 1;
        }
        proof {
            assert(old_states.take(n as int) =~= old_states);
        }
        let ghost mut dr: int = 0;
        proof {
            assert(old_pend.skip(0int) =~= old_pend);
        }
        // flush whatever was already queued
        while self.flush_control.num_queued_flushes() > 0
            invariant
                self.wf(),
                self.total_adds@ == old(self).total_adds@,
                self.delete_queue.next_seq_spec() == old(self).delete_queue.next_seq_spec(),
                self.delete_queue.generation_spec() == old(self).delete_queue.generation_spec(),
                self.ticket_queue.next_ticket_id as int
                    + self.flush_control.pending_flushes@.len() + 2 <= u64::MAX,
                self.ticket_queue.tickets@.len() + self.flush_control.pending_flushes@.len()
                    <= old(self).ticket_queue.tickets@.len() + old(self).per_thread_pool.thread_states@.len() + old(self).flush_control.pending_flushes@.len(),
                self.ticket_queue.next_ticket_id >= old(self).ticket_queue.next_ticket_id,
                ticket_ids(self.ticket_queue.tickets@) == ticket_ids(
                    old(self).ticket_queue.tickets@,
                ) + id_range(
                    old(self).ticket_queue.next_ticket_id as int,
                    self.ticket_queue.next_ticket_id as int - old(self).ticket_queue.next_ticket_id as int,
                ),
                self.flush_control.pending_flushes@.len() <= old(self).flush_control.pending_flushes@.len(),
                anything_flushed == ((exists|k: int|
                    0 <= k < old(self).per_thread_pool.thread_states@.len() && (
                    #[trigger] old(self).per_thread_pool.thread_states@[k]).dwpt is Some)
                    || self.flush_control.pending_flushes@.len() < old(self).flush_control.pending_flushes@.len()),
                !anything_flushed ==> self.ticket_queue == old(self).ticket_queue
                    && self.delete_queue == old(self).delete_queue,
                forall|k: int|
                    0 <= k < self.per_thread_pool.thread_states@.len() ==> (
                    #[trigger] self.per_thread_pool.thread_states@[k]).dwpt is None,
                old_tlen == old(self).ticket_queue.tickets@.len() as int,
                old_states == old(self).per_thread_pool.thread_states@,
                old_pend == old(self).flush_control.pending_flushes@,
                nb == pool_buffers(old_states).len() as int,
                0 <= dr <= old_pend.len(),
                self.flush_control.pending_flushes@ == old_pend.skip(dr),
                self.ticket_queue.tickets@.take(old_tlen) == old(self).ticket_queue.tickets@,
                self.ticket_queue.tickets@.len() == old_tlen + nb + dr,
                forall|j: int|
                    0 <= j < nb ==> ((
                    #[trigger] self.ticket_queue.tickets@[old_tlen + j]).segment matches Some(s)
                        && s.docs@ == pool_buffers(old_states)[j] && s.wf()),
                forall|j: int|
                    0 <= j < dr ==> ((
                    #[trigger] self.ticket_queue.tickets@[old_tlen + nb + j]).segment matches Some(
                        s,
                    ) && s.docs@ == old_pend[j].docs@ && s.wf()),
                nb + dr > 0 ==> ({
                    &&& self.delete_queue.nodes_spec() == old(self).delete_queue.nodes_spec()
                    &&& self.delete_queue.global_buffer().terms_spec() == Seq::<
                        (TermLiteral, u64),
                    >::empty()
                    &&& self.delete_queue.global_slice_spec().head_spec()
                        == self.delete_queue.nodes_spec().len() - 1
                    &&& self.delete_queue.global_slice_spec().tail_spec()
                        == self.delete_queue.nodes_spec().len() - 1
                    &&& term_entry_views(
                        self.ticket_queue.tickets@[old_tlen].frozen.terms@,
                    ) == old(self).delete_queue.global_buffer().terms_spec()
                        + window_term_deletes(
                        old(self).delete_queue.nodes_spec(),
                        old(self).delete_queue.global_slice_spec().head_spec(),
                        old(self).delete_queue.nodes_spec().len() - 1,
                    )
                }),
                forall|j: int|
                    1 <= j < nb + dr ==> term_entry_views(
                        (#[trigger] self.ticket_queue.tickets@[old_tlen + j]).frozen.terms@,
                    ) == Seq::<(TermLiteral, u64)>::empty(),
            decreases self.flush_control.pending_flushes@.len(),
        {
            let ghost pend0 = self.flush_control.pending_flushes@;
            let next = self.flush_control.next_pending_flush();
            match next {
                Some(d) => {
                    proof {
                        lemma_pending_docs_drop_first(pend0);
                        assert forall|k: int|
                            0 <= k < self.flush_control.pending_flushes@.len() implies (
                        #[trigger] self.flush_control.pending_flushes@[k]).wf(
                            self.delete_queue.nodes_spec().len() as int,
                        ) && !self.flush_control.pending_flushes@[k].aborted by {
                            assert(self.flush_control.pending_flushes@[k] == pend0[k + 1]);
                        }
                        assert(d == old_pend[dr]);
                        assert(self.flush_control.pending_flushes@ =~= old_pend.skip(dr + 1));
                        if nb + dr == 0 {
                            lemma_pool_buffers_empty(old_states);
                            assert(!anything_flushed);
                        }
                    }
                    let ghost tq_pre = self.ticket_queue.tickets@;
                    match self.flush_dwpt(d) {
                        Ok(()) => (),
                        Err(e) => {
                            proof {
                                assert(false);
                            }
                            return Err(e);
                        },
                    }
                    anything_flushed = true;
                    proof {
                        dr = dr + 1;
                        assert(self.ticket_queue.tickets@.drop_last() == tq_pre);
                        assert forall|k: int| 0 <= k < tq_pre.len() implies
                            self.ticket_queue.tickets@[k] == tq_pre[k] by {
                            assert(self.ticket_queue.tickets@.drop_last()[k] == tq_pre[k]);
                        }
                        assert(self.ticket_queue.tickets@.take(old_tlen) =~= tq_pre.take(
                            old_tlen,
                        ));
                        assert forall|j: int| 0 <= j < nb implies ((
                        #[trigger] self.ticket_queue.tickets@[old_tlen + j]).segment matches Some(
                            s,
                        ) && s.docs@ == pool_buffers(old_states)[j] && s.wf()) by {
                            assert(self.ticket_queue.tickets@[old_tlen + j]
                                == tq_pre[old_tlen + j]);
                        }
                        assert forall|j: int| 0 <= j < dr implies ((
                        #[trigger] self.ticket_queue.tickets@[old_tlen + nb + j]).segment matches Some(
                            s,
                        ) && s.docs@ == old_pend[j].docs@ && s.wf()) by {
                            if j < dr - 1 {
                                assert(self.ticket_queue.tickets@[old_tlen + nb + j]
                                    == tq_pre[old_tlen + nb + j]);
                            } else {
                                assert(self.ticket_queue.tickets@[old_tlen + nb + j]
                                    == self.ticket_queue.tickets@.last());
                            }
                        }
                        if nb + dr - 1 == 0 {
                            assert(self.ticket_queue.tickets@[old_tlen]
                                == self.ticket_queue.tickets@.last());
                        }
                        assert forall|j: int| 1 <= j < nb + dr implies term_entry_views(
                            (#[trigger] self.ticket_queue.tickets@[old_tlen + j]).frozen.terms@,
                        ) == Seq::<(TermLiteral, u64)>::empty() by {
                            if j < nb + dr - 1 {
                                assert(self.ticket_queue.tickets@[old_tlen + j]
                                    == tq_pre[old_tlen + j]);
                            } else {
                                assert(self.ticket_queue.tickets@[old_tlen + j]
                                    == self.ticket_queue.tickets@.last());
                            }
                        }
                    }
                },
                None => {
                    proof {
                        assert(false);
                    }
                },
            }
        }
        proof {
            assert(dr == old_pend.len());
        }
        // bind any remaining deletes to this flush if no segment carried them
        if !anything_flushed && self.delete_queue.any_changes() {
            let ghost pre_ids = ticket_ids(self.ticket_queue.tickets@);
            let ghost pre_next = self.ticket_queue.next_ticket_id;
            let ghost pre_tq = self.ticket_queue.tickets@;
            let _ = self.ticket_queue.add_deletes(&mut self.delete_queue);
            proof {
                assert forall|k: int| 0 <= k < self.ticket_queue.tickets@.len() implies (
                #[trigger] self.ticket_queue.tickets@[k]).can_publish_spec() by {
                    if k < self.ticket_queue.tickets@.len() - 1 {
                        assert(self.ticket_queue.tickets@[k]
                            == self.ticket_queue.tickets@.drop_last()[k]);
                    }
                }
                assert forall|k: int| 0 <= k < pre_tq.len() implies
                    self.ticket_queue.tickets@[k] == pre_tq[k] by {
                    assert(self.ticket_queue.tickets@.drop_last()[k] == pre_tq[k]);
                }
                assert(self.ticket_queue.tickets@.take(old_tlen) =~= pre_tq.take(old_tlen));
                assert forall|j: int| 0 <= j < nb implies ((
                #[trigger] self.ticket_queue.tickets@[old_tlen + j]).segment matches Some(s)
                    && s.docs@ == pool_buffers(old_states)[j] && s.wf()) by {
                    assert(self.ticket_queue.tickets@[old_tlen + j] == pre_tq[old_tlen + j]);
                }
                assert forall|j: int| 0 <= j < old_pend.len() implies ((
                #[trigger] self.ticket_queue.tickets@[old_tlen + nb + j]).segment matches Some(s)
                    && s.docs@ == old_pend[j].docs@ && s.wf()) by {
                    assert(self.ticket_queue.tickets@[old_tlen + nb + j]
                        == pre_tq[old_tlen + nb + j]);
                }
                assert forall|j: int| 1 <= j < nb + old_pend.len() implies term_entry_views(
                    (#[trigger] self.ticket_queue.tickets@[old_tlen + j]).frozen.terms@,
                ) == Seq::<(TermLiteral, u64)>::empty() by {
                    assert(self.ticket_queue.tickets@[old_tlen + j] == pre_tq[old_tlen + j]);
                }
                if nb + old_pend.len() > 0 {
                    assert(self.ticket_queue.tickets@[old_tlen] == pre_tq[old_tlen]);
                }
                assert(ticket_ids(self.ticket_queue.tickets@) =~= pre_ids.push(pre_next));
                assert(id_range(
                    old(self).ticket_queue.next_ticket_id as int,
                    self.ticket_queue.next_ticket_id as int - old(self).ticket_queue.next_ticket_id as int,
                ) =~= id_range(
                    old(self).ticket_queue.next_ticket_id as int,
                    pre_next as int - old(self).ticket_queue.next_ticket_id as int,
                ).push(pre_next));
                assert(ticket_ids(self.ticket_queue.tickets@) =~= ticket_ids(
                    old(self).ticket_queue.tickets@,
                ) + id_range(
                    old(self).ticket_queue.next_ticket_id as int,
                    self.ticket_queue.next_ticket_id as int - old(self).ticket_queue.next_ticket_id as int,
                ));
            }
        }
        // the next writes accumulate against a fresh queue generation
        let next_gen = self.delete_queue.generation() + 1;
        let start = self.delete_queue.last_sequence_number() + 1;
        proof {
            self.delete_queue.lemma_wf_facts();
        }
        let fresh = DocumentsWriterDeleteQueue::with_generation(next_gen, start);
        self.delete_queue = fresh;
        proof {
            lemma_pool_docs_all_none(self.per_thread_pool.thread_states@);
            assert forall|k: int|
                0 <= k < self.flush_control.pending_flushes@.len() implies (
            #[trigger] self.flush_control.pending_flushes@[k]).wf(
                self.delete_queue.nodes_spec().len() as int,
            ) && !self.flush_control.pending_flushes@[k].aborted by {
                assert(false);
            }
        }
        // publish everything in ticket order
        let ghost pre_tickets = self.ticket_queue.tickets@;
        let ghost pre_published = index.published_tickets();
        let ghost pre_segs = index.segments_spec();
        let ghost ts = pre_tickets.skip(old_tlen);
        proof {
            assert(old(self).ticket_queue.tickets@ + ts =~= pre_tickets);
            assert(nb + old_pend.len() <= ts.len() <= nb + old_pend.len() + 1);
            assert forall|j: int| 0 <= j < nb implies ((#[trigger] ts[j]).segment matches Some(s)
                && s.docs@ == pool_buffers(old_states)[j] && s.wf()) by {
                assert(ts[j] == pre_tickets[old_tlen + j]);
                assert(pre_tickets[old_tlen + j] == self.ticket_queue.tickets@[old_tlen + j]);
            }
            assert forall|j: int| 0 <= j < old_pend.len() implies ((
            #[trigger] ts[nb + j]).segment matches Some(s) && s.docs@ == old_pend[j].docs@
                && s.wf()) by {
                assert(ts[nb + j] == pre_tickets[old_tlen + (nb + j)]);
                assert(pre_tickets[old_tlen + (nb + j)]
                    == self.ticket_queue.tickets@[old_tlen + nb + j]);
            }
            assert forall|j: int| nb + old_pend.len() <= j < ts.len() implies ((
            #[trigger] ts[j]).segment is None && term_entry_views(ts[j].frozen.terms@) == old(self).delete_queue.global_buffer().terms_spec() + window_term_deletes(
                old(self).delete_queue.nodes_spec(),
                old(self).delete_queue.global_slice_spec().head_spec(),
                old(self).delete_queue.nodes_spec().len() - 1,
            )) by {
                assert(ts[j] == pre_tickets[old_tlen + j]);
                assert(old_tlen + j == pre_tickets.len() - 1);
                assert(pre_tickets[old_tlen + j] == pre_tickets.last());
            }
            if nb + old_pend.len() > 0 {
                assert(ts[0] == pre_tickets[old_tlen + 0]);
                assert(pre_tickets[old_tlen + 0] == self.ticket_queue.tickets@[old_tlen]);
            }
            assert forall|j: int| 1 <= j < nb + old_pend.len() implies term_entry_views(
                (#[trigger] ts[j]).frozen.terms@,
            ) == Seq::<(TermLiteral, u64)>::empty() by {
                assert(ts[j] == pre_tickets[old_tlen + j]);
                assert(pre_tickets[old_tlen + j] == self.ticket_queue.tickets@[old_tlen + j]);
            }
        }
        match self.ticket_queue.force_purge(index) {
            Ok(_) => (),
            Err(e) => {
                proof {
                    assert(false);
                }
                return Err(e);
            },
        }
        proof {
            // every ticket was ready, so the purge drained the queue in full
            if self.ticket_queue.tickets@.len() > 0 {
                assert(self.ticket_queue.tickets@[0].can_publish_spec());
                assert(false);
            }
            let k = choose|k: int|
                0 <= k <= pre_tickets.len() && self.ticket_queue.tickets@ == pre_tickets.skip(k)
                    && index.published_tickets() == pre_published + pre_tickets.take(k).map_values(
                    |t: FlushTicket| t.ticket_id,
                ) && published_all(pre_segs, pre_tickets.take(k), index.segments_spec());
            assert(pre_tickets.skip(k).len() == 0);
            assert(k == pre_tickets.len());
            assert(pre_tickets.take(k) =~= pre_tickets);
            assert(index.published_tickets() =~= old(index).published_tickets() + ticket_ids(
                old(self).ticket_queue.tickets@,
            ) + id_range(
                old(self).ticket_queue.next_ticket_id as int,
                self.ticket_queue.next_ticket_id as int - old(self).ticket_queue.next_ticket_id as int,
            ));
            assert(published_all(
                old(index).segments_spec(),
                old(self).ticket_queue.tickets@ + ts,
                index.segments_spec(),
            ));
        }
        Ok((anything_flushed, seq_boundary))
    }
}

/// What the index writer does with one event.
impl WriterEvent {
    /// Acts on the event against the writer and the index: applies buffered
    /// deletes, purges forcefully, or unlinks files of an aborted flush.
    /// Merging and rollback bookkeeping belong to the index writer itself
    /// and need nothing here.
    pub fn process(
        &self,
        writer: &mut DocumentsWriter,
        index: &mut PublishedIndex,
    ) -> (r: Result<(), IndexError>)
        requires
            old(writer).wf(),
            old(index).wf(),
            old(writer).ticket_queue.next_ticket_id < u64::MAX,
            old(writer).ticket_queue.tickets@.len() + 1 <= u32::MAX,
        ensures
            r is Ok,
            final(writer).wf(),
            final(index).wf(),
            final(writer).total_adds@ == old(writer).total_adds@,
            final(writer).num_docs_in_ram == old(writer).num_docs_in_ram,
            self is ApplyDeletes ==> ({
                &&& final(writer).delete_queue.global_buffer().terms_spec().len() == 0
                &&& final(writer).delete_queue.global_buffer().queries_spec().len() == 0
                &&& final(writer).ticket_queue.tickets@.len() == 0
                &&& final(index).published_tickets() == old(index).published_tickets()
                    + ticket_ids(old(writer).ticket_queue.tickets@).push(
                    old(writer).ticket_queue.next_ticket_id,
                )
                &&& exists|t: FlushTicket|
                    t.segment is None && term_entry_views(t.frozen.terms@) == old(
                        writer,
                    ).delete_queue.global_buffer().terms_spec() + window_term_deletes(
                        old(writer).delete_queue.nodes_spec(),
                        old(writer).delete_queue.global_slice_spec().head_spec(),
                        old(writer).delete_queue.nodes_spec().len() - 1,
                    ) && #[trigger] published_all(
                        old(index).segments_spec(),
                        old(writer).ticket_queue.tickets@.push(t),
                        final(index).segments_spec(),
                    )
            }),
            self is ForcedPurge ==> ({
                &&& final(writer).ticket_queue.tickets@.len() == 0
                &&& final(index).published_tickets() == old(index).published_tickets()
                    + ticket_ids(old(writer).ticket_queue.tickets@)
                &&& published_all(
                    old(index).segments_spec(),
                    old(writer).ticket_queue.tickets@,
                    final(index).segments_spec(),
                )
            }),
            self is MergePending || self is FlushFailed ==> *final(writer) == *old(writer)
                && *final(index) == *old(index),
            self matches WriterEvent::DeleteNewFiles(files) ==> (forall|m: int, i: int|
                0 <= m < files@.len() && 0 <= i < final(writer).directory.files_spec().len() ==> (
                #[trigger] final(writer).directory.files_spec()[i]).0
                    != vstd::utf8::encode_utf8((#[trigger] files@[m])@))
                && final(writer).delete_queue == old(writer).delete_queue
                && final(writer).ticket_queue == old(writer).ticket_queue
                && *final(index) == *old(index),
    {
        match self {
            WriterEvent::ApplyDeletes => {
                let ghost pre_ids = ticket_ids(writer.ticket_queue.tickets@);
                let _ = writer.ticket_queue.add_deletes(&mut writer.delete_queue);
                proof {
                    assert forall|k: int| 0 <= k < writer.ticket_queue.tickets@.len() implies (
                    #[trigger] writer.ticket_queue.tickets@[k]).can_publish_spec() by {
                        if k < writer.ticket_queue.tickets@.len() - 1 {
                            assert(writer.ticket_queue.tickets@[k]
                                == writer.ticket_queue.tickets@.drop_last()[k]);
                        }
                    }
                    assert(ticket_ids(writer.ticket_queue.tickets@) =~= pre_ids.push(
                        old(writer).ticket_queue.next_ticket_id,
                    ));
                }
                let ghost pre_tickets = writer.ticket_queue.tickets@;
                let ghost pre_published = index.published_tickets();
                let ghost pre_segs = index.segments_spec();
                let _ = writer.purge_buffer(index, true);
                proof {
                    if writer.ticket_queue.tickets@.len() > 0 {
                        assert(writer.ticket_queue.tickets@[0].can_publish_spec());
                        assert(false);
                    }
                    let k = choose|k: int|
                        0 <= k <= pre_tickets.len() && writer.ticket_queue.tickets@
                            == pre_tickets.skip(k) && index.published_tickets() == pre_published
                            + pre_tickets.take(k).map_values(|t: FlushTicket| t.ticket_id)
                            && published_all(pre_segs, pre_tickets.take(k), index.segments_spec());
                    assert(pre_tickets.skip(k).len() == 0);
                    assert(k == pre_tickets.len());
                    assert(pre_tickets.take(k) =~= pre_tickets);
                    assert(index.published_tickets() =~= old(index).published_tickets() + ticket_ids(
                        old(writer).ticket_queue.tickets@,
                    ).push(old(writer).ticket_queue.next_ticket_id));
                    let dticket = pre_tickets.last();
                    assert(pre_tickets =~= old(writer).ticket_queue.tickets@.push(dticket));
                    assert(dticket.segment is None && published_all(
                        old(index).segments_spec(),
                        old(writer).ticket_queue.tickets@.push(dticket),
                        index.segments_spec(),
                    ));
                }
                Ok(())
            },
            WriterEvent::MergePending => Ok(()),
            WriterEvent::ForcedPurge => {
                let ghost pre_tickets = writer.ticket_queue.tickets@;
                let ghost pre_published = index.published_tickets();
                let ghost pre_segs = index.segments_spec();
                let _ = writer.purge_buffer(index, true);
                proof {
                    if writer.ticket_queue.tickets@.len() > 0 {
                        assert(writer.ticket_queue.tickets@[0].can_publish_spec());
                        assert(false);
                    }
                    let k = choose|k: int|
                        0 <= k <= pre_tickets.len() && writer.ticket_queue.tickets@
                            == pre_tickets.skip(k) && index.published_tickets() == pre_published
                            + pre_tickets.take(k).map_values(|t: FlushTicket| t.ticket_id)
                            && published_all(pre_segs, pre_tickets.take(k), index.segments_spec());
                    assert(pre_tickets.skip(k).len() == 0);
                    assert(k == pre_tickets.len());
                    assert(pre_tickets.take(k) =~= pre_tickets);
                    assert(index.published_tickets() =~= old(index).published_tickets()
                        + ticket_ids(old(writer).ticket_queue.tickets@));
                }
                Ok(())
            },
            WriterEvent::FlushFailed(_info) => Ok(()),
            WriterEvent::DeleteNewFiles(files) => {
                let m = files.len();
                let mut k: usize = 0;
                while k < m
                    invariant
                        writer.wf(),
                        0 <= k <= m,
                        m == files@.len(),
                        writer.total_adds@ == old(writer).total_adds@,
                        writer.num_docs_in_ram == old(writer).num_docs_in_ram,
                        writer.delete_queue == old(writer).delete_queue,
                        writer.ticket_queue == old(writer).ticket_queue,
                        forall|j: int, i: int|
                            0 <= j < k && 0 <= i < writer.directory.files_spec().len() ==> (
                            #[trigger] writer.directory.files_spec()[i]).0
                                != vstd::utf8::encode_utf8((#[trigger] files@[j])@),
                    decreases m - k,
                {
                    let ghost pre_files = writer.directory.files_spec();
                    writer.directory.delete_file(files[k].as_str());
                    proof {
                        crate::store::lemma_files_without_subset(
                            pre_files,
                            vstd::utf8::encode_utf8(files@[k as int]@),
                        );
                        assert forall|j: int, i: int|
                            0 <= j < k + 1 && 0 <= i < writer.directory.files_spec().len() implies (
                        #[trigger] writer.directory.files_spec()[i]).0 != vstd::utf8::encode_utf8(
                            (#[trigger] files@[j])@,
                        ) by {
                            if j < k {
                                let entry = writer.directory.files_spec()[i];
                                let jj = choose|jj: int|
                                    0 <= jj < pre_files.len() && pre_files[jj] == entry;
                            }
                        }
                    }
                    k = k + 1;
                }
                Ok(())
            },
        }
    }
}

} // verus!
