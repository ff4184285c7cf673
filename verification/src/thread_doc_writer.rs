//! The per-thread document writer: buffers documents for one in-flight
//! segment, keeps a private window into the delete log, accumulates the
//! deletes that apply to its own documents, and materializes the segment on
//! flush through the codec layer.

use vstd::prelude::*;
use vstd::string::*;

use crate::codec_util::{framed_segment_file, index_header_bytes, write_footer, write_index_header};
use crate::delete_queue::{
    term_entry_views, window_term_deletes, BufferedUpdates, DeleteNode, DeleteSlice,
    DocumentsWriterDeleteQueue, FrozenBufferedUpdates, Term, TermLiteral,
};
use crate::errors::IndexError;
use crate::index::{
    count_dead, doc_deleted_by, deleted_by_entries, FlushedSegment, Field, SegmentInfo,
    StoredDocument,
};
use crate::store::{RamDirectory, RamOutput};

verus! {

/// A per-thread writer building one in-flight segment.
pub struct DocumentsWriterPerThread {
    /// The name of the segment being built.
    pub segment_name: String,
    /// The sixteen-byte id of the segment being built.
    pub segment_id: Vec<u8>,
    /// The codec that will write the segment.
    pub codec_name: String,
    /// The codec format version.
    pub codec_version: i32,
    /// How many documents are buffered.
    pub num_docs_in_ram: u32,
    /// The buffered documents, in ingestion order.
    pub docs: Vec<StoredDocument>,
    /// The private window into the delete log.
    pub delete_slice: DeleteSlice,
    /// The deletes to apply to this segment's own documents.
    pub pending_updates: BufferedUpdates,
    /// Whether a fatal failure discarded this writer.
    pub aborted: bool,
    /// Files written by an aborted flush, for the writer to unlink.
    pub files_to_delete: Vec<String>,
}

impl DocumentsWriterPerThread {
    /// Well-formedness against the delete log the writer works in: the
    /// window lies inside the log, the document counter counts the
    /// documents, and the identity is writable by the codec layer.
    pub open spec fn wf(&self, queue_len: int) -> bool {
        &&& self.delete_slice.wf(queue_len)
        &&& self.num_docs_in_ram as int == self.docs@.len()
        &&& self.docs@.len() < 0x7FFF_FFFF
        &&& self.segment_id@.len() == 16
        &&& vstd::utf8::encode_utf8(self.codec_name@).len() < 128
        &&& vstd::utf8::encode_utf8(self.segment_name@).len() < 256
    }

    /// What a flush needs of the writer, independent of the delete log.
    pub open spec fn flush_wf(&self) -> bool {
        &&& self.num_docs_in_ram as int == self.docs@.len()
        &&& self.docs@.len() < 0x7FFF_FFFF
        &&& self.segment_id@.len() == 16
        &&& vstd::utf8::encode_utf8(self.codec_name@).len() < 128
        &&& vstd::utf8::encode_utf8(self.segment_name@).len() < 256
    }

    /// A fresh writer for one segment, with a window opening at the current
    /// end of the delete log.
    pub fn new(
        segment_name: String,
        segment_id: Vec<u8>,
        codec_name: String,
        codec_version: i32,
        queue: &DocumentsWriterDeleteQueue,
    ) -> (r: DocumentsWriterPerThread)
        requires
            queue.wf(),
            segment_id@.len() == 16,
            vstd::utf8::encode_utf8(codec_name@).len() < 128,
            vstd::utf8::encode_utf8(segment_name@).len() < 256,
        ensures
            r.wf(queue.nodes_spec().len() as int),
            r.docs@ == Seq::<StoredDocument>::empty(),
            r.num_docs_in_ram == 0,
            !r.aborted,
            r.pending_updates.terms_spec() == Seq::<(TermLiteral, u64)>::empty(),
            r.segment_name@ == segment_name@,
            r.codec_name@ == codec_name@,
            r.codec_version == codec_version,
            r.delete_slice.head_spec() == queue.nodes_spec().len() - 1,
            r.delete_slice.tail_spec() == queue.nodes_spec().len() - 1,
    {
        proof {
            queue.lemma_wf_facts();
        }
        let r = DocumentsWriterPerThread {
            segment_name,
            segment_id,
            codec_name,
            codec_version,
            num_docs_in_ram: 0,
            docs: Vec::new(),
            delete_slice: queue.new_slice(),
            pending_updates: BufferedUpdates::new(),
            aborted: false,
            files_to_delete: Vec::new(),
        };
        proof {
            assert(r.docs@ =~= Seq::<StoredDocument>::empty());
        }
        r
    }

    /// Ingests one document, issuing its sequence number. If a delete term
    /// is present the document is bound to it: the term's delete node
    /// becomes the new end of this writer's window, atomically with the
    /// document. The window is then drained into the private buffer, so
    /// every delete the writer has seen applies to its earlier documents.
    pub fn update_document(
        &mut self,
        queue: &mut DocumentsWriterDeleteQueue,
        doc: Vec<Field>,
        del_term: Option<Term>,
    ) -> (r: Result<u64, IndexError>)
        requires
            old(self).wf(old(queue).nodes_spec().len() as int),
            !old(self).aborted,
            old(queue).wf(),
            old(queue).next_seq_spec() < u64::MAX,
            old(self).docs@.len() < 0x7FFF_FFFE,
        ensures
            final(queue).wf(),
            final(self).wf(final(queue).nodes_spec().len() as int),
            !final(self).aborted,
            r matches Ok(seq) && seq as int == old(queue).next_seq_spec(),
            final(queue).next_seq_spec() == old(queue).next_seq_spec() + 1,
            final(queue).issued_spec() == old(queue).issued_spec().push(
                (old(queue).next_seq_spec()) as u64,
            ),
            match del_term {
                Some(t) => final(queue).nodes_spec().len() == old(queue).nodes_spec().len() + 1
                    && final(queue).nodes_spec().drop_last() == old(queue).nodes_spec() && (final(queue).nodes_spec().last().node matches DeleteNode::SingleTerm(t2) && t2.view_of()
                    == t.view_of()) && final(queue).nodes_spec().last().seq as int == old(queue).next_seq_spec(),
                None => final(queue).nodes_spec() == old(queue).nodes_spec(),
            },
            final(self).docs@.len() == old(self).docs@.len() + 1,
            final(self).docs@.drop_last() == old(self).docs@,
            final(self).docs@.last().fields == doc,
            final(self).docs@.last().seq as int == old(queue).next_seq_spec(),
            match del_term {
                Some(t) => final(self).docs@.last().key matches Some(k) && k.view_of()
                    == t.view_of(),
                None => final(self).docs@.last().key is None,
            },
            final(self).num_docs_in_ram == old(self).num_docs_in_ram + 1,
            final(self).pending_updates.terms_spec() == old(self).pending_updates.terms_spec()
                + window_term_deletes(
                final(queue).nodes_spec(),
                old(self).delete_slice.head_spec(),
                final(queue).nodes_spec().len() - 1,
            ),
            final(self).segment_name@ == old(self).segment_name@,
            final(self).codec_name@ == old(self).codec_name@,
            final(self).codec_version == old(self).codec_version,
            final(queue).generation_spec() == old(queue).generation_spec(),
    {
        let seq = match del_term {
            Some(t) => {
                let key = t.clone();
                let s = match queue.add_term_to_slice(t, &mut self.delete_slice) {
                    Ok(s) => s,
                    Err(e) => {
                        proof {
                            assert(false);
                        }
                        return Err(e);
                    },
                };
                self.docs.push(StoredDocument { fields: doc, key: Some(key), seq: s });
                s
            },
            None => {
                let (s, _advanced) = queue.update_slice(&mut self.delete_slice);
                self.docs.push(StoredDocument { fields: doc, key: None, seq: s });
                s
            },
        };
        self.num_docs_in_ram = self.num_docs_in_ram + 1;
        queue.apply_slice(&mut self.delete_slice, &mut self.pending_updates);
        proof {
            assert(final(self).docs@.drop_last() =~= old(self).docs@);
        }
        Ok(seq)
    }

    /// Ingests a block of documents under one sequence number: the block's
    /// delete term binds to the block as a whole, so the block's own
    /// documents survive it while every earlier matching document dies.
    pub fn update_documents(
        &mut self,
        queue: &mut DocumentsWriterDeleteQueue,
        docs: Vec<Vec<Field>>,
        del_term: Option<Term>,
    ) -> (r: Result<u64, IndexError>)
        requires
            old(self).wf(old(queue).nodes_spec().len() as int),
            !old(self).aborted,
            old(queue).wf(),
            old(queue).next_seq_spec() < u64::MAX,
            old(self).docs@.len() + docs@.len() < 0x7FFF_FFFE,
        ensures
            final(queue).wf(),
            final(self).wf(final(queue).nodes_spec().len() as int),
            !final(self).aborted,
            r matches Ok(seq) && seq as int == old(queue).next_seq_spec(),
            final(queue).next_seq_spec() == old(queue).next_seq_spec() + 1,
            final(queue).issued_spec() == old(queue).issued_spec().push(
                (old(queue).next_seq_spec()) as u64,
            ),
            match del_term {
                Some(t) => final(queue).nodes_spec().len() == old(queue).nodes_spec().len() + 1
                    && final(queue).nodes_spec().drop_last() == old(queue).nodes_spec() && (final(queue).nodes_spec().last().node matches DeleteNode::SingleTerm(t2) && t2.view_of()
                    == t.view_of()) && final(queue).nodes_spec().last().seq as int == old(queue).next_seq_spec(),
                None => final(queue).nodes_spec() == old(queue).nodes_spec(),
            },
            final(self).docs@.len() == old(self).docs@.len() + docs@.len(),
            final(self).docs@.take(old(self).docs@.len() as int) == old(self).docs@,
            forall|i: int|
                0 <= i < docs@.len() ==> {
                    let d = #[trigger] final(self).docs@[old(self).docs@.len() + i];
                    &&& d.fields == docs@[i]
                    &&& d.seq as int == old(queue).next_seq_spec()
                    &&& match del_term {
                        Some(t) => d.key matches Some(k) && k.view_of() == t.view_of(),
                        None => d.key is None,
                    }
                },
            final(self).num_docs_in_ram as int == old(self).num_docs_in_ram + docs@.len(),
            final(self).segment_name@ == old(self).segment_name@,
            final(self).codec_name@ == old(self).codec_name@,
            final(self).codec_version == old(self).codec_version,
            final(queue).generation_spec() == old(queue).generation_spec(),
    {
        let seq = match &del_term {
            Some(t) => {
                let node_term = t.clone();
                match queue.add_term_to_slice(node_term, &mut self.delete_slice) {
                    Ok(s) => s,
                    Err(e) => {
                        proof {
                            assert(false);
                        }
                        return Err(e);
                    },
                }
            },
            None => {
                let (s, _advanced) = queue.update_slice(&mut self.delete_slice);
                s
            },
        };
        let ghost n0 = self.docs@.len();
        let ghost all_docs = docs@;
        let ghost qnodes = queue.nodes_spec();
        let ghost qissued = queue.issued_spec();
        let ghost qnext = queue.next_seq_spec();
        let ghost qgen = queue.generation_spec();
        let ghost slice0 = self.delete_slice;
        let ghost pending0 = self.pending_updates.terms_spec();
        let mut remaining = docs;
        let total = remaining.len();
        let mut i: usize = 0;
        while i < total
            invariant
                0 <= i <= total,
                total == all_docs.len(),
                remaining@.len() + i as int == total as int,
                self.docs@.len() == n0 + i as int,
                self.docs@.take(n0 as int) == old(self).docs@,
                n0 == old(self).docs@.len(),
                n0 + total < 0x7FFF_FFFE,
                queue.wf(),
                queue.nodes_spec() == qnodes,
                queue.issued_spec() == qissued,
                queue.next_seq_spec() == qnext,
                queue.generation_spec() == qgen,
                self.delete_slice == slice0,
                slice0.wf(qnodes.len() as int),
                self.pending_updates.terms_spec() == pending0,
                self.num_docs_in_ram == old(self).num_docs_in_ram,
                self.aborted == old(self).aborted,
                forall|k: int|
                    0 <= k < i as int ==> {
                        let d = #[trigger] self.docs@[n0 + k];
                        &&& d.fields == all_docs[k]
                        &&& d.seq == seq
                        &&& match del_term {
                            Some(t) => d.key matches Some(dk) && dk.view_of() == t.view_of(),
                            None => d.key is None,
                        }
                    },
                forall|k: int|
                    0 <= k < remaining@.len() ==> #[trigger] remaining@[k] == all_docs[i + k],
                self.segment_name@ == old(self).segment_name@,
                self.codec_name@ == old(self).codec_name@,
                self.codec_version == old(self).codec_version,
                self.segment_id@ == old(self).segment_id@,
            decreases total - i,
        {
            let fields = remaining.remove(0);
            let key = match &del_term {
                Some(t) => Some(t.clone()),
                None => None,
            };
            let ghost pre = self.docs@;
            self.docs.push(StoredDocument { fields, key, seq });
            proof {
                assert(self.docs@.take(n0 as int) =~= pre.take(n0 as int));
            }
            i = i + 1;
        }
        self.num_docs_in_ram = self.num_docs_in_ram + (total as u32);
        queue.apply_slice(&mut self.delete_slice, &mut self.pending_updates);
        Ok(seq)
    }

    /// Discards all buffered state and marks the writer unusable; called on
    /// any aborting failure.
    pub fn abort(&mut self)
        ensures
            final(self).aborted,
            final(self).docs@ == Seq::<StoredDocument>::empty(),
            final(self).num_docs_in_ram == 0,
            final(self).delete_slice == old(self).delete_slice,
            final(self).pending_updates.terms_spec() == Seq::<(TermLiteral, u64)>::empty(),
    {
        self.aborted = true;
        self.docs.clear();
        self.num_docs_in_ram = 0;
        self.pending_updates.clear();
    }

    /// Binds this writer's flush to the delete stream: freezes the global
    /// buffer (returning the packet that the flush's ticket will carry),
    /// advances this writer's window to the freeze point, and drains the
    /// window into the private buffer, so the segment's own deletes cover
    /// everything up to the freeze.
    pub fn prepare_flush(&mut self, queue: &mut DocumentsWriterDeleteQueue) -> (r:
        FrozenBufferedUpdates)
        requires
            old(self).wf(old(queue).nodes_spec().len() as int),
            old(queue).wf(),
        ensures
            final(queue).wf(),
            final(self).wf(final(queue).nodes_spec().len() as int),
            final(queue).nodes_spec() == old(queue).nodes_spec(),
            final(queue).next_seq_spec() == old(queue).next_seq_spec(),
            final(queue).issued_spec() == old(queue).issued_spec(),
            r.generation == old(queue).generation_spec(),
            term_entry_views(r.terms@) == old(queue).global_buffer().terms_spec()
                + window_term_deletes(
                old(queue).nodes_spec(),
                old(queue).global_slice_spec().head_spec(),
                old(queue).nodes_spec().len() - 1,
            ),
            final(queue).global_buffer().terms_spec() == Seq::<(TermLiteral, u64)>::empty(),
            final(queue).global_buffer().queries_spec() == Seq::<(Seq<char>, u64)>::empty(),
            final(queue).global_slice_spec().head_spec() == final(queue).nodes_spec().len() - 1,
            final(queue).global_slice_spec().tail_spec() == final(queue).nodes_spec().len() - 1,
            final(self).docs@ == old(self).docs@,
            final(self).num_docs_in_ram == old(self).num_docs_in_ram,
            final(self).aborted == old(self).aborted,
            final(self).pending_updates.terms_spec() == old(self).pending_updates.terms_spec()
                + window_term_deletes(
                old(queue).nodes_spec(),
                old(self).delete_slice.head_spec(),
                old(queue).nodes_spec().len() - 1,
            ),
            final(self).segment_name@ == old(self).segment_name@,
            final(self).segment_id@ == old(self).segment_id@,
            final(self).codec_name@ == old(self).codec_name@,
            final(self).codec_version == old(self).codec_version,
            final(queue).generation_spec() == old(queue).generation_spec(),
    {
        let frozen = queue.freeze_global_buffer_with_slice(&mut self.delete_slice);
        queue.apply_slice(&mut self.delete_slice, &mut self.pending_updates);
        frozen
    }

    /// Materializes the buffered documents as a segment: computes which of
    /// its own documents the private deletes leave live, writes one segment
    /// file through the codec layer (an index header, the document payload,
    /// and the checksummed footer), and hands back the segment descriptor.
    pub fn flush(self, dir: &mut RamDirectory) -> (r: Result<FlushedSegment, IndexError>)
        requires
            self.flush_wf(),
            !self.aborted,
        ensures
            r matches Ok(seg) && ({
                let seg = r->Ok_0;
                &&& seg.wf()
                &&& seg.docs@ == self.docs@
                &&& seg.live@.len() == self.docs@.len()
                &&& forall|j: int|
                    0 <= j < self.docs@.len() ==> seg.live@[j] == !doc_deleted_by(
                        #[trigger] self.docs@[j],
                        self.pending_updates.terms_spec(),
                    )
                &&& seg.info.name@ == self.segment_name@
                &&& seg.info.id@ == self.segment_id@
                &&& seg.info.codec@ == self.codec_name@
                &&& seg.info.version == self.codec_version
                &&& seg.info.max_doc as int == self.docs@.len()
                &&& seg.info.files@.len() == 1
                &&& final(dir).files_spec().len() == old(dir).files_spec().len() + 1
                &&& exists|payload: Seq<u8>|
                    final(dir).files_spec().last().1 == #[trigger] framed_segment_file(
                        vstd::utf8::encode_utf8(self.codec_name@),
                        self.codec_version,
                        self.segment_id@,
                        payload,
                    )
                &&& final(dir).files_spec().take(old(dir).files_spec().len() as int) == old(
                    dir,
                ).files_spec()
            }),
    {
        // decide which of the segment's own documents survive its deletes
        let n = self.docs.len();
        let entries = self.pending_updates.term_entries();
        let ghost expected = Seq::new(
            n as nat,
            |k: int| !doc_deleted_by(self.docs@[k], self.pending_updates.terms_spec()),
        );
        let mut live: Vec<bool> = Vec::new();
        let mut dead: u32 = 0;
        let mut j: usize = 0;
        proof {
            assert(live@ =~= expected.take(0));
        }
        while j < n
            invariant
                0 <= j <= n,
                n == self.docs@.len(),
                n < 0x7FFF_FFFF,
                crate::delete_queue::term_entry_views(entries@)
                    == self.pending_updates.terms_spec(),
                expected == Seq::new(
                    n as nat,
                    |k: int| !doc_deleted_by(self.docs@[k], self.pending_updates.terms_spec()),
                ),
                live@ == expected.take(j as int),
                dead as int == count_dead(live@),
                dead as int <= j as int,
            decreases n - j,
        {
            let is_live = !deleted_by_entries(&self.docs[j], entries);
            let ghost pre = live@;
            live.push(is_live);
            if !is_live {
                dead = dead + 1;
            }
            proof {
                assert(live@.drop_last() =~= pre);
                assert(expected[j as int] == !doc_deleted_by(
                    self.docs@[j as int],
                    self.pending_updates.terms_spec(),
                ));
                assert(live@ =~= expected.take(j as int + 1));
            }
            j = j + 1;
        }
        proof {
            assert(live@ =~= expected);
        }
        // write the segment file: index header, document payload, footer
        let mut out = RamOutput::new();
        proof {
            reveal_strlit("");
            assert(vstd::utf8::encode_utf8(Seq::<char>::empty()) =~= Seq::<u8>::empty());
        }
        match write_index_header(
            &mut out,
            self.codec_name.as_str(),
            self.codec_version,
            self.segment_id.as_slice(),
            "",
        ) {
            Ok(()) => (),
            Err(e) => {
                proof {
                    assert(false);
                }
                return Err(e);
            },
        }
        let ghost header = out@;
        proof {
            assert(out@.take(header.len() as int) =~= header);
        }
        out.write_vint(n as u32);
        let mut j2: usize = 0;
        while j2 < n
            invariant
                0 <= j2 <= n,
                n == self.docs@.len(),
                n < 0x7FFF_FFFF,
                out@.take(header.len() as int) == header,
                out@.len() >= header.len(),
            decreases n - j2,
        {
            let ghost pre = out@;
            out.write_long(self.docs[j2].seq as i64);
            let field_count = self.docs[j2].fields.len();
            out.write_vint(field_count as u32);
            proof {
                assert(out@.take(header.len() as int) =~= header);
            }
            j2 = j2 + 1;
        }
        let ghost framed = out@;
        write_footer(&mut out);
        let file_name = self.segment_name.clone().concat(".dat");
        let mut files: Vec<String> = Vec::new();
        files.push(file_name.clone());
        let bytes = out.into_bytes();
        dir.write_file(file_name, bytes);
        proof {
            assert(final(dir).files_spec().take(old(dir).files_spec().len() as int) =~= old(
                dir,
            ).files_spec());
            assert(index_header_bytes(
                vstd::utf8::encode_utf8(self.codec_name@),
                self.codec_version,
                self.segment_id@,
                Seq::<u8>::empty(),
            ) =~= header);
            let payload = framed.skip(header.len() as int);
            assert(framed =~= header + payload);
            assert(final(dir).files_spec().last().1 == framed_segment_file(
                vstd::utf8::encode_utf8(self.codec_name@),
                self.codec_version,
                self.segment_id@,
                payload,
            ));
        }
        let info = SegmentInfo {
            name: self.segment_name,
            id: self.segment_id,
            codec: self.codec_name,
            version: self.codec_version,
            max_doc: n as u32,
            files,
            del_count: dead,
        };
        let seg = FlushedSegment { info, docs: self.docs, live };
        Ok(seg)
    }

    /// A coarse estimate of the memory this writer holds: a fixed cost per
    /// buffered document plus the private delete buffer's estimate,
    /// saturating at the top of the range.
    pub open spec fn ram_estimate(&self) -> int {
        let deletes = if self.pending_updates.terms_spec().len() * 104
            + self.pending_updates.queries_spec().len() * 72 <= u64::MAX {
            (self.pending_updates.terms_spec().len() * 104
                + self.pending_updates.queries_spec().len() * 72) as int
        } else {
            u64::MAX as int
        };
        if self.docs@.len() * 1024 + deletes <= u64::MAX {
            self.docs@.len() * 1024 + deletes
        } else {
            u64::MAX as int
        }
    }

    /// A coarse estimate of the memory this writer holds, saturating.
    pub fn ram_bytes_used(&self) -> (r: u64)
        requires
            self.num_docs_in_ram as int == self.docs@.len(),
            self.docs@.len() < 0x7FFF_FFFF,
        ensures
            r as int == self.ram_estimate(),
    {
        let docs_cost: u64 = (self.num_docs_in_ram as u64) * 1024;
        let deletes_cost = self.pending_updates.bytes_used();
        if docs_cost <= u64::MAX - deletes_cost {
            docs_cost + deletes_cost
        } else {
            u64::MAX
        }
    }
}

} // verus!
