//! Writer pipeline behaviour: sequence numbers, update and delete
//! semantics, flushing, publication order and the memory accounting.

use rucene::delete_queue::{DocumentsWriterDeleteQueue, Term};
use rucene::doc_writer::{DocumentsWriter, IndexWriterConfig};
use rucene::errors::IndexError;
use rucene::index::{matches_term, PublishedIndex};
use rucene::store::{DataInput, RamDirectory};

fn term(field: &str, text: &str) -> Term {
    Term::new(field.to_string(), text.as_bytes().to_vec())
}

fn doc(field: &str, text: &str) -> Vec<rucene::index::Field> {
    vec![rucene::index::Field {
        name: field.to_string(),
        value: text.as_bytes().to_vec(),
    }]
}

fn writer(max_buffered_docs: u32) -> DocumentsWriter {
    let config = IndexWriterConfig::new(max_buffered_docs, 0, "Lucene62".to_string(), 1);
    DocumentsWriter::new(config, RamDirectory::new())
}

fn live_docs_with(index: &PublishedIndex, t: &Term) -> usize {
    let mut n = 0;
    for seg in &index.segments {
        for (j, d) in seg.docs.iter().enumerate() {
            if seg.live[j] && matches_term(d, t) {
                n += 1;
            }
        }
    }
    n
}

#[test]
fn sequence_numbers_are_strictly_increasing_and_unique() {
    let mut queue = DocumentsWriterDeleteQueue::default_queue();
    let a = queue.add_delete_terms(vec![term("f", "x")]).unwrap();
    let b = queue.add_delete_queries(vec!["q".to_string()]).unwrap();
    let mut slice = queue.new_slice();
    let (c, _) = queue.update_slice(&mut slice);
    let d = queue.add_term_to_slice(term("f", "y"), &mut slice).unwrap();
    assert_eq!((a, b, c, d), (1, 2, 3, 4));
    assert_eq!(queue.last_sequence_number(), 4);
}

#[test]
fn writer_operations_consume_one_sequence_number_each() {
    let mut w = writer(0);
    let (s1, _) = w.update_document(0, doc("content", "a"), None).unwrap();
    let (s2, _) = w.update_document(1, doc("content", "b"), None).unwrap();
    let (s3, _) = w.delete_terms(vec![term("content", "a")]).unwrap();
    let (s4, _) = w
        .update_documents(0, vec![doc("content", "c"), doc("content", "d")], None)
        .unwrap();
    assert_eq!((s1, s2, s3, s4), (1, 2, 3, 4));
    assert_eq!(w.num_docs(), 4);
}

#[test]
fn concurrent_updates_with_one_term_leave_one_document() {
    // two producer slots play the two racing threads: both update with the
    // same key, and after a full flush exactly one document with content
    // "a" is live
    let mut w = writer(0);
    let mut index = PublishedIndex::new();
    w.update_document(0, doc("content", "a"), Some(term("id", "k")))
        .unwrap();
    w.update_document(1, doc("content", "a"), Some(term("id", "k")))
        .unwrap();
    w.flush_all_threads(&mut index).unwrap();
    assert_eq!(live_docs_with(&index, &term("id", "k")), 1);
    assert_eq!(live_docs_with(&index, &term("content", "a")), 1);
}

#[test]
fn delete_before_update_leaves_the_document() {
    let mut w = writer(0);
    let mut index = PublishedIndex::new();
    let (del_seq, _) = w.delete_terms(vec![term("id", "k")]).unwrap();
    let (upd_seq, _) = w
        .update_document(0, doc("content", "a"), Some(term("id", "k")))
        .unwrap();
    assert!(del_seq < upd_seq);
    w.flush_all_threads(&mut index).unwrap();
    assert_eq!(live_docs_with(&index, &term("id", "k")), 1);
}

#[test]
fn delete_after_update_removes_the_document() {
    let mut w = writer(0);
    let mut index = PublishedIndex::new();
    let (upd_seq, _) = w
        .update_document(0, doc("content", "a"), Some(term("id", "k")))
        .unwrap();
    let (del_seq, _) = w.delete_terms(vec![term("id", "k")]).unwrap();
    assert!(upd_seq < del_seq);
    w.flush_all_threads(&mut index).unwrap();
    assert_eq!(live_docs_with(&index, &term("id", "k")), 0);
}

#[test]
fn delete_of_never_indexed_term_is_a_no_op() {
    let mut w = writer(0);
    let mut index = PublishedIndex::new();
    w.update_document(0, doc("content", "a"), None).unwrap();
    w.delete_terms(vec![term("id", "never")]).unwrap();
    w.flush_all_threads(&mut index).unwrap();
    assert_eq!(live_docs_with(&index, &term("content", "a")), 1);
}

#[test]
fn thousand_documents_publish_in_ticket_order_with_increasing_seq_nos() {
    // a budget of one hundred documents makes the writer cut segments as it
    // goes; publication must follow segment creation order, and sequence
    // numbers must increase across the published segments in that order
    let mut w = writer(100);
    let mut index = PublishedIndex::new();
    for i in 0..1000u32 {
        let text = format!("doc{}", i);
        w.update_document(0, doc("content", &text), None).unwrap();
    }
    w.flush_all_threads(&mut index).unwrap();
    assert!(index.segments.len() >= 2);
    let mut total = 0;
    let mut prev_seq = 0u64;
    for seg in &index.segments {
        for d in &seg.docs {
            assert!(d.seq > prev_seq, "sequence numbers must grow in publication order");
            prev_seq = d.seq;
        }
        total += seg.docs.len();
    }
    assert_eq!(total, 1000);
    assert_eq!(w.num_docs(), 0);
}

#[test]
fn empty_and_single_document_segments() {
    // flushing with nothing buffered publishes nothing
    let mut w = writer(0);
    let mut index = PublishedIndex::new();
    let (flushed, _) = w.flush_all_threads(&mut index).unwrap();
    assert!(!flushed);
    assert_eq!(index.segments.len(), 0);
    // one document makes a one-document segment
    w.update_document(0, doc("content", "only"), None).unwrap();
    let (flushed, _) = w.flush_all_threads(&mut index).unwrap();
    assert!(flushed);
    assert_eq!(index.segments.len(), 1);
    assert_eq!(index.segments[0].docs.len(), 1);
    assert!(index.segments[0].live[0]);
    assert_eq!(index.segments[0].info.max_doc, 1);
    assert_eq!(index.segments[0].info.del_count, 0);
}

#[test]
fn memory_accounting_balances_through_flush_and_abort() {
    let mut w = writer(0);
    let mut index = PublishedIndex::new();
    w.update_document(0, doc("a", "1"), None).unwrap();
    w.update_document(0, doc("a", "2"), None).unwrap();
    w.update_document(1, doc("a", "3"), None).unwrap();
    assert_eq!(w.num_docs(), 3);
    w.flush_all_threads(&mut index).unwrap();
    assert_eq!(w.num_docs(), 0);
    w.update_document(0, doc("a", "4"), None).unwrap();
    w.update_document(1, doc("a", "5"), None).unwrap();
    assert_eq!(w.num_docs(), 2);
    let aborted = w.lock_and_abort_all().unwrap();
    assert_eq!(aborted, 2);
    assert_eq!(w.num_docs(), 0);
}

#[test]
fn closed_writer_refuses_updates_and_deletes() {
    let mut w = writer(0);
    w.close();
    assert!(matches!(
        w.update_document(0, doc("a", "1"), None),
        Err(IndexError::AlreadyClosed)
    ));
    assert!(matches!(
        w.delete_terms(vec![term("a", "1")]),
        Err(IndexError::AlreadyClosed)
    ));
}

#[test]
fn any_changes_tracks_buffered_work() {
    let mut w = writer(0);
    let mut index = PublishedIndex::new();
    assert!(!w.any_changes());
    w.update_document(0, doc("a", "1"), None).unwrap();
    assert!(w.any_changes());
    w.flush_all_threads(&mut index).unwrap();
    w.finish_full_flush(true);
    assert!(!w.any_changes());
    w.delete_terms(vec![term("a", "1")]).unwrap();
    assert!(w.any_changes());
}

#[test]
fn block_updates_share_one_sequence_number_and_survive_their_own_delete() {
    let mut w = writer(0);
    let mut index = PublishedIndex::new();
    w.update_document(0, doc("content", "old"), Some(term("id", "k")))
        .unwrap();
    let (seq, _) = w
        .update_documents(
            0,
            vec![doc("content", "n1"), doc("content", "n2")],
            Some(term("id", "k")),
        )
        .unwrap();
    w.flush_all_threads(&mut index).unwrap();
    // the block replaced the old document and both block documents live,
    // each carrying the block's sequence number
    assert_eq!(live_docs_with(&index, &term("id", "k")), 2);
    for seg in &index.segments {
        for (j, d) in seg.docs.iter().enumerate() {
            if seg.live[j] && matches_term(d, &term("id", "k")) {
                assert_eq!(d.seq, seq);
            }
        }
    }
}

#[test]
fn flushed_segment_files_verify_under_the_codec() {
    // every file a flush writes carries a clean index header and footer
    let mut w = writer(0);
    let mut index = PublishedIndex::new();
    w.update_document(0, doc("content", "a"), None).unwrap();
    w.flush_all_threads(&mut index).unwrap();
    assert_eq!(index.segments.len(), 1);
    let info = &index.segments[0].info;
    assert_eq!(info.files.len(), 1);
    let input = w.directory.open_input(&info.files[0]).unwrap();
    let crc = rucene::codec_util::checksum_entire_file(&input).unwrap();
    assert!(crc >= 0);
    let mut seekable = input;
    seekable.seek(0).unwrap();
    let version = rucene::codec_util::check_index_header(
        &mut seekable,
        "Lucene62",
        1,
        1,
        &info.id,
        "",
    )
    .unwrap();
    assert_eq!(version, 1);
    let _ = seekable.len();
}

#[test]
fn delete_queries_count_and_clear() {
    let mut queue = DocumentsWriterDeleteQueue::default_queue();
    assert!(!queue.any_changes());
    queue.add_delete_terms(vec![term("f", "a"), term("f", "b")]).unwrap();
    assert_eq!(queue.num_global_term_deletes(), 2);
    assert!(queue.ram_bytes_used() > 0);
    let frozen = queue.freeze_global_buffer();
    assert!(frozen.any_changes());
    assert_eq!(queue.num_global_term_deletes(), 0);
}

#[test]
fn flushed_segments_hold_exactly_the_ingested_documents_in_order() {
    // what was handed to the writer is what the published segments hold:
    // same field bytes, ingestion order preserved across segment cuts
    let mut w = writer(3);
    let mut index = PublishedIndex::new();
    let mut expected: Vec<Vec<u8>> = Vec::new();
    for i in 0..8u32 {
        let text = format!("payload{}", i);
        expected.push(text.as_bytes().to_vec());
        w.update_document(0, doc("content", &text), None).unwrap();
    }
    w.flush_all_threads(&mut index).unwrap();
    let mut seen: Vec<Vec<u8>> = Vec::new();
    for seg in &index.segments {
        assert_eq!(seg.docs.len(), seg.live.len());
        assert_eq!(seg.info.max_doc as usize, seg.docs.len());
        for d in &seg.docs {
            assert_eq!(d.fields.len(), 1);
            assert_eq!(d.fields[0].name, "content");
            seen.push(d.fields[0].value.clone());
        }
    }
    assert_eq!(seen, expected);
}
