//! Iterator, scorer, bulk-scorer and collector behaviour.

use rucene::bits::{FixedBits, MatchAllBits, MatchNoBits};
use rucene::collector::{ChainedCollector, EarlyTerminatingSortingCollector};
use rucene::posting_iterator::{
    posting_feature_requested, EmptyPostingIterator, PostingIterator, POSTING_ITERATOR_FLAG_ALL,
    POSTING_ITERATOR_FLAG_FREQS, POSTING_ITERATOR_FLAG_NONE, POSTING_ITERATOR_FLAG_OFFSETS,
    POSTING_ITERATOR_FLAG_PAYLOADS, POSTING_ITERATOR_FLAG_POSITIONS,
};
use rucene::doc_values::{
    BinaryDocValues, DocValues, NumericDocValues, RandomAccessOrds, SortedDocValues,
    SortedNumericDocValues, SortedSetDocValues, NO_MORE_ORDS,
};
use rucene::search::EmptyDocIterator;
use rucene::bulk_scorer::BulkScorer;
use rucene::collector::{Collector, LeafReaderContext, TopDocsCollector};
use rucene::search::{
    create_mock_doc_iterator, create_mock_scorer, create_mock_two_phase_scorer, two_phase_next,
    DocIterator, Scorer, NO_MORE_DOCS,
};

#[test]
fn test_score() {
    let docs = vec![1, 2, 3, 4, 5];
    let bits = MatchAllBits::new(docs.len());
    let scorer_box = create_mock_scorer(docs);
    let leaf_reader_context = LeafReaderContext { ord: 0, doc_base: 0 };
    let mut top_collector = TopDocsCollector::new(3);
    {
        let mut bulk_scorer = BulkScorer::new(scorer_box);
        top_collector.set_next_reader(&leaf_reader_context).unwrap();
        bulk_scorer
            .score(&mut top_collector, Some(&bits), 0, NO_MORE_DOCS)
            .unwrap();
    }

    let top_docs = top_collector.top_docs();
    assert_eq!(top_docs.total_hits(), 5);

    let score_docs = top_docs.score_docs();
    assert_eq!(score_docs.len(), 3);
    assert_eq!(score_docs[0].doc_id(), 5);
    assert_eq!(score_docs[1].doc_id(), 4);
    assert_eq!(score_docs[2].doc_id(), 3);
}

#[test]
fn test_mock_two_phase_scorer() {
    let mut scorer =
        create_mock_two_phase_scorer(vec![1, 2, 3, 4, 5, 6, 7, 8, 9, 10], vec![2, 4, 5, 7, 9]);
    assert_eq!(scorer.approximate_next().unwrap(), 1);
    assert!(scorer.matches().unwrap());

    assert_eq!(scorer.approximate_next().unwrap(), 2);
    assert!(!scorer.matches().unwrap());

    assert_eq!(scorer.next().unwrap(), 3);
    assert_eq!(scorer.next().unwrap(), 6);
    assert!(scorer.matches().unwrap());

    assert_eq!(scorer.approximate_advance(7).unwrap(), 7);
    assert!(!scorer.matches().unwrap());

    assert_eq!(scorer.advance(9).unwrap(), 10);
    assert!(scorer.matches().unwrap());
}

#[test]
fn two_phase_next_skips_every_invalid_doc() {
    // all = 1..=10, invalid = {2,4,5,7,9}: plain `next` visits 1,3,6,8,10
    // and then the sentinel
    let mut scorer =
        create_mock_two_phase_scorer(vec![1, 2, 3, 4, 5, 6, 7, 8, 9, 10], vec![2, 4, 5, 7, 9]);
    let mut seen = Vec::new();
    loop {
        let d = scorer.next().unwrap();
        seen.push(d);
        if d == NO_MORE_DOCS {
            break;
        }
    }
    assert_eq!(seen, vec![1, 3, 6, 8, 10, NO_MORE_DOCS]);
}

#[test]
fn two_phase_helper_confirms_from_current_position() {
    let mut scorer = create_mock_two_phase_scorer(vec![3, 4, 5], vec![3]);
    assert_eq!(scorer.approximate_next().unwrap(), 3);
    // 3 fails confirmation, so the helper moves on to 4
    assert_eq!(two_phase_next(&mut scorer).unwrap(), 4);
}

#[test]
fn doc_iterator_emits_strictly_increasing_ids() {
    let mut it = create_mock_doc_iterator(vec![0, 2, 9, 40]);
    assert_eq!(it.doc_id(), -1);
    let mut prev = -1;
    loop {
        let d = it.next().unwrap();
        if d == NO_MORE_DOCS {
            break;
        }
        assert!(d > prev);
        assert!(d <= NO_MORE_DOCS);
        prev = d;
    }
    assert_eq!(it.doc_id(), NO_MORE_DOCS);
}

#[test]
fn advance_lands_on_the_first_doc_at_or_after_target() {
    let mut it = create_mock_doc_iterator(vec![1, 5, 9]);
    assert_eq!(it.advance(4).unwrap(), 5);
    assert_eq!(it.advance(6).unwrap(), 9);
    assert_eq!(it.advance(10).unwrap(), NO_MORE_DOCS);
}

#[test]
fn bulk_scorer_respects_the_accept_bits() {
    // docs 0..6, filter keeps only the even ones
    let scorer = create_mock_scorer(vec![0, 1, 2, 3, 4, 5]);
    let bits = FixedBits::new(vec![true, false, true, false, true, false]);
    let mut collector = TopDocsCollector::new(10);
    collector
        .set_next_reader(&LeafReaderContext { ord: 0, doc_base: 0 })
        .unwrap();
    let mut bulk = BulkScorer::new(scorer);
    let next = bulk
        .score(&mut collector, Some(&bits), 0, NO_MORE_DOCS)
        .unwrap();
    assert_eq!(next, NO_MORE_DOCS);
    let top = collector.top_docs();
    assert_eq!(top.total_hits(), 3);
    let mut got: Vec<i32> = top.score_docs().iter().map(|sd| sd.doc_id()).collect();
    got.sort();
    assert_eq!(got, vec![0, 2, 4]);
}

#[test]
fn bulk_scorer_collects_only_inside_the_window() {
    let scorer = create_mock_scorer(vec![1, 3, 5, 7, 9]);
    let bits = MatchAllBits::new(10);
    let mut collector = TopDocsCollector::new(10);
    collector
        .set_next_reader(&LeafReaderContext { ord: 0, doc_base: 0 })
        .unwrap();
    let mut bulk = BulkScorer::new(scorer);
    // the window [3, 8) holds exactly 3, 5 and 7
    let next = bulk.score(&mut collector, Some(&bits), 3, 8).unwrap();
    assert_eq!(next, 9);
    let top = collector.top_docs();
    assert_eq!(top.total_hits(), 3);
    let mut got: Vec<i32> = top.score_docs().iter().map(|sd| sd.doc_id()).collect();
    got.sort();
    assert_eq!(got, vec![3, 5, 7]);
}

#[test]
fn bulk_scorer_with_two_phase_scorer_filters_by_matches() {
    let scorer = create_mock_two_phase_scorer(vec![1, 2, 3, 4, 5], vec![2, 4]);
    let bits = MatchAllBits::new(6);
    let mut collector = TopDocsCollector::new(10);
    collector
        .set_next_reader(&LeafReaderContext { ord: 0, doc_base: 0 })
        .unwrap();
    let mut bulk = BulkScorer::new(scorer);
    bulk.score(&mut collector, Some(&bits), 0, NO_MORE_DOCS)
        .unwrap();
    let top = collector.top_docs();
    assert_eq!(top.total_hits(), 3);
    let mut got: Vec<i32> = top.score_docs().iter().map(|sd| sd.doc_id()).collect();
    got.sort();
    assert_eq!(got, vec![1, 3, 5]);
}

#[test]
fn match_no_bits_suppresses_everything() {
    let scorer = create_mock_scorer(vec![1, 2, 3]);
    let bits = MatchNoBits::new(4);
    let mut collector = TopDocsCollector::new(10);
    collector
        .set_next_reader(&LeafReaderContext { ord: 0, doc_base: 0 })
        .unwrap();
    let mut bulk = BulkScorer::new(scorer);
    bulk.score(&mut collector, Some(&bits), 0, NO_MORE_DOCS)
        .unwrap();
    assert_eq!(collector.top_docs().total_hits(), 0);
}

#[test]
fn posting_flags_nest_as_documented() {
    assert!(posting_feature_requested(
        POSTING_ITERATOR_FLAG_POSITIONS,
        POSTING_ITERATOR_FLAG_FREQS
    ));
    assert!(posting_feature_requested(
        POSTING_ITERATOR_FLAG_ALL,
        POSTING_ITERATOR_FLAG_OFFSETS
    ));
    assert!(posting_feature_requested(
        POSTING_ITERATOR_FLAG_ALL,
        POSTING_ITERATOR_FLAG_PAYLOADS
    ));
    assert!(!posting_feature_requested(
        POSTING_ITERATOR_FLAG_FREQS,
        POSTING_ITERATOR_FLAG_POSITIONS
    ));
    assert!(posting_feature_requested(
        POSTING_ITERATOR_FLAG_FREQS,
        POSTING_ITERATOR_FLAG_NONE
    ));
}

#[test]
fn empty_iterators_exhaust_immediately() {
    let mut e = EmptyDocIterator::default();
    assert_eq!(e.doc_id(), -1);
    assert_eq!(e.cost(), 0);
    assert_eq!(e.next().unwrap(), NO_MORE_DOCS);
    assert_eq!(e.advance(42).unwrap(), NO_MORE_DOCS);
    let mut p = EmptyPostingIterator::default();
    assert_eq!(p.cost(), 0);
    assert_eq!(p.next().unwrap(), NO_MORE_DOCS);
    assert_eq!(p.freq().unwrap(), 0);
    assert_eq!(p.payload().unwrap(), Vec::<u8>::new());
}

#[test]
fn cost_bounds_the_match_count() {
    // an iterator's cost is an upper bound on how many documents it matches
    let it = create_mock_doc_iterator(vec![2, 5, 9]);
    assert!(it.cost() >= 3);
    let scorer = create_mock_two_phase_scorer(vec![1, 2, 3, 4], vec![2, 4]);
    assert!(scorer.cost() >= 2);
}

#[test]
fn early_termination_stops_the_chain() {
    let scorer = create_mock_scorer(vec![0, 1, 2, 3, 4, 5, 6, 7]);
    let bits = MatchAllBits::new(8);
    let early = EarlyTerminatingSortingCollector::new(3);
    let top = TopDocsCollector::new(8);
    let mut chained = ChainedCollector::new(early, top);
    chained
        .set_next_reader(&LeafReaderContext { ord: 0, doc_base: 0 })
        .unwrap();
    let mut bulk = BulkScorer::new(scorer);
    let next = bulk
        .score(&mut chained, Some(&bits), 0, NO_MORE_DOCS)
        .unwrap();
    // the chain stopped after three hits, well before the sentinel
    assert!(next < NO_MORE_DOCS);
    let top_docs = chained.second.top_docs();
    assert_eq!(top_docs.total_hits(), 3);
}

#[test]
fn doc_values_empties_and_singletons() {
    let mut b = DocValues::empty_binary();
    assert_eq!(b.get(3).unwrap(), Vec::<u8>::new());
    let mut n = DocValues::empty_numeric();
    assert_eq!(n.get(3).unwrap(), 0);
    let mut s = DocValues::empty_sorted();
    assert_eq!(s.get_ord(0).unwrap(), -1);
    assert_eq!(s.get(7).unwrap(), Vec::<u8>::new());
    assert_eq!(s.lookup_ord(5).unwrap(), Vec::<u8>::new());
    assert_eq!(s.get_value_count(), 0);
    let mut sn = DocValues::empty_sorted_numeric(8);
    sn.set_document(2).unwrap();
    assert_eq!(sn.count(), 0);
    let mut ss = DocValues::empty_sorted_set();
    ss.set_document(1).unwrap();
    assert_eq!(ss.next_ord().unwrap(), NO_MORE_ORDS);
    assert_eq!(ss.cardinality(), 0);
    let mut bits = DocValues::docs_with_value_sorted(DocValues::empty_sorted(), 4);
    assert!(!bits.get(0).unwrap());
    assert_eq!(bits.len(), 4);
    let mut set_bits = DocValues::docs_with_value_sorted_set(DocValues::empty_sorted_set(), 4);
    assert!(!set_bits.get(1).unwrap());
    let mut num_bits =
        DocValues::docs_with_value_sorted_numeric(DocValues::empty_sorted_numeric(4), 4);
    assert!(!num_bits.get(1).unwrap());
}
