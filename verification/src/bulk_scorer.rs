//! Bulk scoring: drives a scorer across a document range, delegating
//! acceptance to an optional bit filter and results to a collector.
//!
//! The contract is exact: when the collector does not terminate early, it
//! receives exactly the scorer's matches inside `[min, max)` that the filter
//! accepts, in ascending order — the sequence [`kept`].

use vstd::prelude::*;

use crate::bits::Bits;
use crate::collector::{clamped_doc, CollectStatus, Collector};
use crate::errors::IndexError;
use crate::search::{
    is_doc_seq, lemma_seek_bounds, lemma_seek_exhausted, lemma_seek_member, lemma_seek_props,
    lemma_seek_skip, seek, DocIterator, Scorer, NO_MORE_DOCS,
};
use crate::DocId;

verus! {

/// Whether the optional filter accepts document `d`; no filter accepts all.
pub open spec fn accepts<B: Bits>(bits: Option<&B>, d: int) -> bool {
    match bits {
        Some(b) => b.bit(d),
        None => true,
    }
}

/// The entries of `docs` inside `[lo, hi)` that the filter accepts, in
/// order: what a full bulk-scoring pass over that window hands the
/// collector.
pub open spec fn kept<B: Bits>(docs: Seq<DocId>, lo: int, hi: int, bits: Option<&B>) -> Seq<DocId>
    decreases docs.len(),
{
    if docs.len() == 0 {
        Seq::empty()
    } else {
        let rest = kept(docs.drop_first(), lo, hi, bits);
        if lo <= docs[0] < hi && accepts(bits, docs[0] as int) {
            seq![docs[0]] + rest
        } else {
            rest
        }
    }
}

/// Law: the window's content is exactly the accepted matches inside it, in
/// the order of the match list. A document appears among the collected ones
/// if and only if the scorer matches it, it lies in `[lo, hi)`, and the
/// filter accepts it; and the collected order is the match order.
pub proof fn lemma_kept_exact<B: Bits>(docs: Seq<DocId>, lo: int, hi: int, bits: Option<&B>)
    requires
        is_doc_seq(docs),
    ensures
        is_doc_seq(kept(docs, lo, hi, bits)),
        forall|d: DocId| #[trigger] kept(docs, lo, hi, bits).contains(d) <==> docs.contains(d) && lo
            <= d < hi && accepts(bits, d as int),
    decreases docs.len(),
{
    let v = kept(docs, lo, hi, bits);
    if docs.len() == 0 {
        assert forall|d: DocId| #[trigger] v.contains(d) implies docs.contains(d) && lo <= d < hi
            && accepts(bits, d as int) by {}
        assert forall|d: DocId| docs.contains(d) && lo <= d < hi && accepts(bits, d as int) implies
            #[trigger] v.contains(d) by {}
    } else {
        crate::search::lemma_doc_seq_drop_first(docs);
        lemma_kept_exact(docs.drop_first(), lo, hi, bits);
        let rest = kept(docs.drop_first(), lo, hi, bits);
        assert forall|d: DocId| #[trigger] docs.drop_first().contains(d) implies docs.contains(
            d,
        ) by {
            let j = choose|j: int| 0 <= j < docs.drop_first().len() && docs.drop_first()[j] == d;
            assert(docs[j + 1] == d);
        }
        assert forall|d: DocId| docs.contains(d) && d != docs[0] implies docs.drop_first().contains(
            d,
        ) by {
            let j = choose|j: int| 0 <= j < docs.len() && docs[j] == d;
            assert(j != 0);
            assert(docs.drop_first()[j - 1] == d);
        }
        if lo <= docs[0] < hi && accepts(bits, docs[0] as int) {
            assert forall|d: DocId| #[trigger] v.contains(d) implies docs.contains(d) && lo <= d
                < hi && accepts(bits, d as int) by {
                let j = choose|j: int| 0 <= j < v.len() && v[j] == d;
                if j == 0 {
                    assert(d == docs[0]);
                    assert(docs.contains(docs[0]));
                } else {
                    assert(rest[j - 1] == d);
                    assert(rest.contains(d));
                }
            }
            assert forall|d: DocId| docs.contains(d) && lo <= d < hi && accepts(
                bits,
                d as int,
            ) implies #[trigger] v.contains(d) by {
                if d == docs[0] {
                    assert(v[0] == d);
                } else {
                    assert(rest.contains(d));
                    let j = choose|j: int| 0 <= j < rest.len() && rest[j] == d;
                    assert(v[j + 1] == d);
                }
            }
            assert forall|i: int, j: int| 0 <= i < j < v.len() implies v[i] < v[j] by {
                if i == 0 {
                    assert(v[j] == rest[j - 1]);
                    assert(rest.contains(rest[j - 1]));
                    assert(docs.drop_first().contains(rest[j - 1]));
                    let k = choose|k: int|
                        0 <= k < docs.drop_first().len() && docs.drop_first()[k] == rest[j - 1];
                    assert(docs[k + 1] == rest[j - 1]);
                    assert(docs[0] < docs[k + 1]);
                } else {
                    assert(v[i] == rest[i - 1] && v[j] == rest[j - 1]);
                }
            }
            assert forall|i: int| 0 <= i < v.len() implies 0 <= #[trigger] v[i] < NO_MORE_DOCS by {
                assert(v.contains(v[i]));
                let k = choose|k: int| 0 <= k < docs.len() && docs[k] == v[i];
            }
        } else {
            assert forall|d: DocId| #[trigger] v.contains(d) implies docs.contains(d) && lo <= d
                < hi && accepts(bits, d as int) by {}
            assert forall|d: DocId| docs.contains(d) && lo <= d < hi && accepts(
                bits,
                d as int,
            ) implies #[trigger] v.contains(d) by {
                assert(d != docs[0]);
            }
        }
    }
}

/// Narrowing or widening an empty part of the window changes nothing: two
/// upper bounds with no entry between them keep the same content.
pub proof fn lemma_kept_same_hi<B: Bits>(
    docs: Seq<DocId>,
    lo: int,
    b1: int,
    b2: int,
    bits: Option<&B>,
)
    requires
        b1 <= b2,
        forall|i: int| 0 <= i < docs.len() ==> !(b1 <= #[trigger] docs[i] < b2),
    ensures
        kept(docs, lo, b2, bits) == kept(docs, lo, b1, bits),
    decreases docs.len(),
{
    if docs.len() > 0 {
        assert forall|i: int| 0 <= i < docs.drop_first().len() implies !(b1
            <= #[trigger] docs.drop_first()[i] < b2) by {
            assert(docs.drop_first()[i] == docs[i + 1]);
        }
        lemma_kept_same_hi(docs.drop_first(), lo, b1, b2, bits);
        assert(!(b1 <= docs[0] < b2));
    }
}

/// Two lower bounds with no entry between them keep the same content.
pub proof fn lemma_kept_same_lo<B: Bits>(
    docs: Seq<DocId>,
    lo1: int,
    lo2: int,
    hi: int,
    bits: Option<&B>,
)
    requires
        lo1 <= lo2,
        forall|i: int| 0 <= i < docs.len() ==> !(lo1 <= #[trigger] docs[i] < lo2),
    ensures
        kept(docs, lo1, hi, bits) == kept(docs, lo2, hi, bits),
    decreases docs.len(),
{
    if docs.len() > 0 {
        assert forall|i: int| 0 <= i < docs.drop_first().len() implies !(lo1
            <= #[trigger] docs.drop_first()[i] < lo2) by {
            assert(docs.drop_first()[i] == docs[i + 1]);
        }
        lemma_kept_same_lo(docs.drop_first(), lo1, lo2, hi, bits);
        assert(!(lo1 <= docs[0] < lo2));
    }
}

/// An empty window keeps nothing.
pub proof fn lemma_kept_empty<B: Bits>(docs: Seq<DocId>, lo: int, hi: int, bits: Option<&B>)
    requires
        hi <= lo,
    ensures
        kept(docs, lo, hi, bits) == Seq::<DocId>::empty(),
    decreases docs.len(),
{
    if docs.len() > 0 {
        lemma_kept_empty(docs.drop_first(), lo, hi, bits);
    }
}

/// Raising the upper bound past exactly one kept entry appends it; past a
/// skipped or absent entry, nothing changes.
pub proof fn lemma_kept_extend<B: Bits>(
    docs: Seq<DocId>,
    lo: int,
    c: DocId,
    b2: int,
    bits: Option<&B>,
)
    requires
        is_doc_seq(docs),
        (c as int) < b2,
        forall|i: int| 0 <= i < docs.len() ==> !((c as int) < #[trigger] docs[i] < b2),
    ensures
        kept(docs, lo, b2, bits) == kept(docs, lo, c as int, bits) + (if docs.contains(c) && lo
            <= c as int && accepts(bits, c as int) {
            seq![c]
        } else {
            Seq::<DocId>::empty()
        }),
    decreases docs.len(),
{
    let add = if docs.contains(c) && lo <= c as int && accepts(bits, c as int) {
        seq![c]
    } else {
        Seq::<DocId>::empty()
    };
    if docs.len() == 0 {
        assert(kept(docs, lo, b2, bits) =~= kept(docs, lo, c as int, bits) + add);
    } else {
        crate::search::lemma_doc_seq_drop_first(docs);
        assert forall|i: int| 0 <= i < docs.drop_first().len() implies !((c as int)
            < #[trigger] docs.drop_first()[i] < b2) by {
            assert(docs.drop_first()[i] == docs[i + 1]);
        }
        lemma_kept_extend(docs.drop_first(), lo, c, b2, bits);
        assert forall|d: DocId| docs.contains(d) && d != docs[0] implies docs.drop_first().contains(
            d,
        ) by {
            let j = choose|j: int| 0 <= j < docs.len() && docs[j] == d;
            assert(j != 0);
            assert(docs.drop_first()[j - 1] == d);
        }
        assert forall|d: DocId| #[trigger] docs.drop_first().contains(d) implies docs.contains(
            d,
        ) by {
            let j = choose|j: int| 0 <= j < docs.drop_first().len() && docs.drop_first()[j] == d;
            assert(docs[j + 1] == d);
        }
        if docs[0] == c {
            // the tail holds no `c`, so the tail windows agree and the head
            // contributes the single appended entry
            assert forall|i: int| 0 <= i < docs.drop_first().len() implies !((c as int)
                <= #[trigger] docs.drop_first()[i] < b2) by {
                assert(docs.drop_first()[i] == docs[i + 1]);
                assert(docs[0] < docs[i + 1]);
            }
            lemma_kept_same_hi(docs.drop_first(), lo, c as int, b2, bits);
            assert(docs.contains(c)) by {
                assert(docs[0] == c);
            }
            // the tail holds nothing below `c`, so the `[lo, c)` windows of
            // both the tail and the whole list are empty
            assert forall|i: int| 0 <= i < docs.drop_first().len() implies !(lo
                <= #[trigger] docs.drop_first()[i] < c as int) by {
                assert(docs.drop_first()[i] == docs[i + 1]);
                assert(docs[0] < docs[i + 1]);
            }
            if lo <= c as int {
                lemma_kept_same_hi(docs.drop_first(), lo, lo, c as int, bits);
                lemma_kept_empty(docs.drop_first(), lo, lo, bits);
            } else {
                lemma_kept_empty(docs.drop_first(), lo, c as int, bits);
            }
            assert(kept(docs.drop_first(), lo, c as int, bits) =~= Seq::<DocId>::empty());
            if lo <= c as int && accepts(bits, c as int) {
                assert(kept(docs, lo, b2, bits) =~= kept(docs, lo, c as int, bits) + add);
            } else {
                assert(kept(docs, lo, b2, bits) =~= kept(docs, lo, c as int, bits) + add);
            }
        } else {
            assert(docs.contains(c) <==> docs.drop_first().contains(c));
            assert(!((c as int) < docs[0] < b2));
            assert((lo <= docs[0] < b2 && accepts(bits, docs[0] as int)) == (lo <= docs[0]
                < c as int && accepts(bits, docs[0] as int)));
            assert(kept(docs, lo, b2, bits) =~= kept(docs, lo, c as int, bits) + add);
        }
    }
}

/// The (global document, score) hits a scorer hands a collector for the
/// given documents, in order.
pub open spec fn hits_of<S: Scorer>(docs: Seq<DocId>, base: int, scorer: S) -> Seq<(int, int)> {
    docs.map_values(
        |d: DocId| (clamped_doc(base, d as int), scorer.score_at(d as int) as int),
    )
}

/// Iterates a scorer over a document range, handing accepted matches to a
/// collector in ascending order.
pub struct BulkScorer<S: Scorer> {
    /// The scorer being driven.
    pub scorer: S,
}

impl<S: Scorer> BulkScorer<S> {
    /// Wraps a scorer.
    pub fn new(scorer: S) -> (r: BulkScorer<S>)
        ensures
            r.scorer == scorer,
    {
        BulkScorer { scorer }
    }

    /// Collects the scorer's matches inside `[min, max)` that `accept_docs`
    /// accepts (every document when there is no filter), in ascending order,
    /// and returns the first approximate position at or after `max`, or
    /// `NO_MORE_DOCS`. If the collector terminates early, collection stops
    /// at the terminating document, which is returned.
    pub fn score<C: Collector, B: Bits>(
        &mut self,
        collector: &mut C,
        accept_docs: Option<&B>,
        min: DocId,
        max: DocId,
    ) -> (r: Result<DocId, IndexError>)
        requires
            old(self).scorer.inv(),
            old(collector).cinv(),
            !old(collector).terminated(),
            0 <= min <= max,
            old(self).scorer.cur() < min as int,
        ensures
            final(self).scorer.inv(),
            final(self).scorer.docs() == old(self).scorer.docs(),
            final(self).scorer.approx() == old(self).scorer.approx(),
            final(collector).cinv(),
            final(collector).base() == old(collector).base(),
            forall|d: int| final(self).scorer.score_at(d) == old(self).scorer.score_at(d),
            r == Ok::<DocId, IndexError>(final(self).scorer.cur() as DocId),
            !final(collector).terminated() ==> final(self).scorer.cur() == seek(
                old(self).scorer.approx(),
                max as int,
            ) && final(collector).collected() == old(collector).collected() + kept(
                old(self).scorer.docs(),
                min as int,
                max as int,
                accept_docs,
            ) && final(collector).hits() == old(collector).hits() + hits_of(
                kept(old(self).scorer.docs(), min as int, max as int, accept_docs),
                old(collector).base(),
                old(self).scorer,
            ),
            final(collector).terminated() ==> final(self).scorer.cur() < max as int
                && old(self).scorer.docs().contains(final(self).scorer.cur() as DocId)
                && final(collector).collected() == old(collector).collected() + kept(
                old(self).scorer.docs(),
                min as int,
                final(self).scorer.cur() + 1,
                accept_docs,
            ) && final(collector).hits() == old(collector).hits() + hits_of(
                kept(
                    old(self).scorer.docs(),
                    min as int,
                    final(self).scorer.cur() + 1,
                    accept_docs,
                ),
                old(collector).base(),
                old(self).scorer,
            ),
    {
        proof {
            old(self).scorer.inv_facts();
        }
        let ghost approx0 = old(self).scorer.approx();
        let ghost docs0 = old(self).scorer.docs();
        let current_doc = if min == 0 && max == NO_MORE_DOCS {
            match self.scorer.approximate_next() {
                Ok(d) => d,
                Err(e) => {
                    proof {
                        assert(false);
                    }
                    return Err(e);
                },
            }
        } else {
            match self.scorer.approximate_advance(min) {
                Ok(d) => d,
                Err(e) => {
                    proof {
                        assert(false);
                    }
                    return Err(e);
                },
            }
        };
        proof {
            assert(self.scorer.cur() == seek(approx0, min as int));
            lemma_seek_bounds(approx0, min as int);
            lemma_seek_props(approx0, min as int);
            if current_doc >= max {
                // nothing of the window remains: the landing spot is already
                // the first approximate position at or after `max`
                assert forall|i: int| 0 <= i < approx0.len() implies !(max as int
                    <= #[trigger] approx0[i] < current_doc as int) by {
                    assert(!(min as int <= approx0[i] < seek(approx0, min as int)));
                }
                lemma_seek_skip(approx0, max as int, current_doc as int);
                if current_doc == NO_MORE_DOCS {
                    lemma_seek_exhausted(approx0, current_doc as int);
                } else {
                    lemma_seek_member(approx0, current_doc);
                }
            }
            // no match lies between `min` and the landing spot
            assert forall|i: int| 0 <= i < docs0.len() implies !(min as int <= #[trigger] docs0[i]
                < current_doc as int) by {
                assert(docs0.contains(docs0[i]));
                assert(approx0.contains(docs0[i]));
                let j = choose|j: int| 0 <= j < approx0.len() && approx0[j] == docs0[i];
                assert(!(min as int <= approx0[j] < seek(approx0, min as int)));
            }
            lemma_kept_same_lo(docs0, min as int, current_doc as int, max as int, accept_docs);
        }
        self.score_range(collector, accept_docs, current_doc, max, Ghost(min as int))
    }

    /// Collects from the already positioned `current` up to `max`.
    fn score_range<C: Collector, B: Bits>(
        &mut self,
        collector: &mut C,
        accept_docs: Option<&B>,
        current: DocId,
        max: DocId,
        window_lo: Ghost<int>,
    ) -> (r: Result<DocId, IndexError>)
        requires
            old(self).scorer.inv(),
            old(collector).cinv(),
            !old(collector).terminated(),
            old(self).scorer.cur() == current as int,
            window_lo@ <= current as int,
            0 <= current,
            current as int >= max as int ==> current as int == seek(
                old(self).scorer.approx(),
                max as int,
            ),
            kept(old(self).scorer.docs(), window_lo@, max as int, accept_docs) == kept(
                old(self).scorer.docs(),
                current as int,
                max as int,
                accept_docs,
            ),
        ensures
            final(self).scorer.inv(),
            final(self).scorer.docs() == old(self).scorer.docs(),
            final(self).scorer.approx() == old(self).scorer.approx(),
            final(collector).cinv(),
            final(collector).base() == old(collector).base(),
            forall|d: int| final(self).scorer.score_at(d) == old(self).scorer.score_at(d),
            r == Ok::<DocId, IndexError>(final(self).scorer.cur() as DocId),
            !final(collector).terminated() ==> final(self).scorer.cur() == seek(
                old(self).scorer.approx(),
                max as int,
            ) && final(collector).collected() == old(collector).collected() + kept(
                old(self).scorer.docs(),
                window_lo@,
                max as int,
                accept_docs,
            ) && final(collector).hits() == old(collector).hits() + hits_of(
                kept(old(self).scorer.docs(), window_lo@, max as int, accept_docs),
                old(collector).base(),
                old(self).scorer,
            ),
            final(collector).terminated() ==> final(self).scorer.cur() < max as int
                && old(self).scorer.docs().contains(final(self).scorer.cur() as DocId)
                && final(collector).collected() == old(collector).collected() + kept(
                old(self).scorer.docs(),
                window_lo@,
                final(self).scorer.cur() + 1,
                accept_docs,
            ) && final(collector).hits() == old(collector).hits() + hits_of(
                kept(
                    old(self).scorer.docs(),
                    window_lo@,
                    final(self).scorer.cur() + 1,
                    accept_docs,
                ),
                old(collector).base(),
                old(self).scorer,
            ),
    {
        proof {
            old(self).scorer.inv_facts();
            old(self).scorer.two_phase_facts();
        }
        let ghost approx0 = old(self).scorer.approx();
        let ghost docs0 = old(self).scorer.docs();
        let ghost lo = window_lo@;
        let two_phase = self.scorer.support_two_phase();
        let mut current_doc = current;
        proof {
            // nothing of the window precedes the starting position, so the
            // part already passed is empty
            lemma_kept_exact(docs0, lo, max as int, accept_docs);
            lemma_kept_exact(docs0, current as int, max as int, accept_docs);
            if (current as int) < max as int {
                lemma_kept_exact(docs0, lo, current as int, accept_docs);
                let w = kept(docs0, lo, current as int, accept_docs);
                if w.len() > 0 {
                    assert(w.contains(w[0]));
                    assert(kept(docs0, lo, max as int, accept_docs).contains(w[0]));
                    assert(kept(docs0, current as int, max as int, accept_docs).contains(w[0]));
                    assert(false);
                }
                assert(w =~= Seq::<DocId>::empty());
            } else {
                lemma_kept_empty(docs0, current as int, max as int, accept_docs);
                assert(kept(docs0, lo, max as int, accept_docs) =~= Seq::<DocId>::empty());
            }
            assert(collector.collected() =~= old(collector).collected() + Seq::<DocId>::empty());
            assert(hits_of(Seq::<DocId>::empty(), old(collector).base(), old(self).scorer) =~= Seq::<
                (int, int),
            >::empty());
            assert(collector.hits() =~= old(collector).hits() + Seq::<(int, int)>::empty());
        }
        while current_doc < max
            invariant
                self.scorer.inv(),
                approx0 == old(self).scorer.approx(),
                docs0 == old(self).scorer.docs(),
                lo == window_lo@,
                self.scorer.docs() == docs0,
                self.scorer.approx() == approx0,
                self.scorer.cur() == current_doc as int,
                0 <= current_doc,
                lo <= current_doc as int,
                two_phase == self.scorer.two_phase(),
                collector.cinv(),
                !collector.terminated(),
                collector.base() == old(collector).base(),
                forall|d: int| self.scorer.score_at(d) == old(self).scorer.score_at(d),
                collector.collected() == old(collector).collected() + kept(
                    docs0,
                    lo,
                    if (current_doc as int) < max as int {
                        current_doc as int
                    } else {
                        max as int
                    },
                    accept_docs,
                ),
                collector.hits() == old(collector).hits() + hits_of(
                    kept(
                        docs0,
                        lo,
                        if (current_doc as int) < max as int {
                            current_doc as int
                        } else {
                            max as int
                        },
                        accept_docs,
                    ),
                    old(collector).base(),
                    old(self).scorer,
                ),
                current_doc as int >= max as int ==> current_doc as int == seek(
                    approx0,
                    max as int,
                ),
            decreases NO_MORE_DOCS as int - current_doc,
        {
            proof {
                self.scorer.inv_facts();
                self.scorer.two_phase_facts();
            }
            let accepted = match accept_docs {
                Some(b) => match b.get(current_doc as usize) {
                    Ok(v) => v,
                    Err(e) => {
                        proof {
                            assert(false);
                        }
                        return Err(e);
                    },
                },
                None => true,
            };
            let confirmed = if !accepted {
                false
            } else if two_phase {
                match self.scorer.matches() {
                    Ok(m) => m,
                    Err(e) => {
                        proof {
                            assert(false);
                        }
                        return Err(e);
                    },
                }
            } else {
                proof {
                    assert(self.scorer.approx().contains(current_doc));
                    assert(self.scorer.docs().contains(current_doc));
                }
                true
            };
            if confirmed {
                let st = collector.collect(current_doc, &mut self.scorer);
                match st {
                    CollectStatus::Continue => (),
                    _ => {
                        proof {
                            lemma_kept_extend(
                                docs0,
                                lo,
                                current_doc,
                                current_doc as int + 1,
                                accept_docs,
                            );
                            assert(collector.collected() =~= old(collector).collected() + kept(
                                docs0,
                                lo,
                                current_doc as int + 1,
                                accept_docs,
                            ));
                            assert(hits_of(
                                kept(docs0, lo, current_doc as int + 1, accept_docs),
                                old(collector).base(),
                                old(self).scorer,
                            ) =~= hits_of(
                                kept(docs0, lo, current_doc as int, accept_docs),
                                old(collector).base(),
                                old(self).scorer,
                            ).push(
                                (
                                    clamped_doc(old(collector).base(), current_doc as int),
                                    old(self).scorer.score_at(current_doc as int) as int,
                                ),
                            ));
                            assert(collector.hits() =~= old(collector).hits() + hits_of(
                                kept(docs0, lo, current_doc as int + 1, accept_docs),
                                old(collector).base(),
                                old(self).scorer,
                            ));
                        }
                        return Ok(current_doc);
                    },
                }
            }
            let ghost prev = current_doc;
            let ghost prev_in_docs = self.scorer.docs().contains(prev);
            current_doc = match self.scorer.approximate_next() {
                Ok(d) => d,
                Err(e) => {
                    proof {
                        assert(false);
                    }
                    return Err(e);
                },
            };
            proof {
                lemma_seek_props(approx0, prev as int + 1);
                lemma_seek_bounds(approx0, prev as int + 1);
                let bound = if (current_doc as int) < max as int {
                    current_doc as int
                } else {
                    max as int
                };
                assert forall|i: int| 0 <= i < docs0.len() implies !((prev as int)
                    < #[trigger] docs0[i] < bound) by {
                    assert(docs0.contains(docs0[i]));
                    assert(approx0.contains(docs0[i]));
                    let j = choose|j: int| 0 <= j < approx0.len() && approx0[j] == docs0[i];
                    assert(!(prev as int + 1 <= approx0[j] < seek(approx0, prev as int + 1)));
                }
                lemma_kept_extend(docs0, lo, prev, bound, accept_docs);
                if confirmed {
                    assert(collector.collected() =~= old(collector).collected() + kept(
                        docs0,
                        lo,
                        bound,
                        accept_docs,
                    ));
                    assert(hits_of(
                        kept(docs0, lo, bound, accept_docs),
                        old(collector).base(),
                        old(self).scorer,
                    ) =~= hits_of(
                        kept(docs0, lo, prev as int, accept_docs),
                        old(collector).base(),
                        old(self).scorer,
                    ).push(
                        (
                            clamped_doc(old(collector).base(), prev as int),
                            old(self).scorer.score_at(prev as int) as int,
                        ),
                    ));
                    assert(collector.hits() =~= old(collector).hits() + hits_of(
                        kept(docs0, lo, bound, accept_docs),
                        old(collector).base(),
                        old(self).scorer,
                    ));
                } else {
                    // a skipped candidate adds nothing to the window
                    if accepted {
                        if two_phase {
                            assert(!docs0.contains(prev));
                        }
                    } else {
                        assert(!accepts(accept_docs, prev as int));
                    }
                    assert(collector.collected() =~= old(collector).collected() + kept(
                        docs0,
                        lo,
                        bound,
                        accept_docs,
                    ));
                    assert(hits_of(
                        kept(docs0, lo, bound, accept_docs),
                        old(collector).base(),
                        old(self).scorer,
                    ) =~= hits_of(
                        kept(docs0, lo, prev as int, accept_docs),
                        old(collector).base(),
                        old(self).scorer,
                    ));
                    assert(collector.hits() =~= old(collector).hits() + hits_of(
                        kept(docs0, lo, bound, accept_docs),
                        old(collector).base(),
                        old(self).scorer,
                    ));
                }
                if current_doc as int >= max as int {
                    assert forall|i: int| 0 <= i < approx0.len() implies !(max as int
                        <= #[trigger] approx0[i] < current_doc as int) by {
                        assert(!(prev as int + 1 <= approx0[i] < seek(approx0, prev as int + 1)));
                    }
                    lemma_seek_skip(approx0, max as int, current_doc as int);
                    if current_doc == NO_MORE_DOCS {
                        lemma_seek_exhausted(approx0, current_doc as int);
                    } else {
                        self.scorer.inv_facts();
                        lemma_seek_member(approx0, current_doc);
                    }
                }
            }
        }
        Ok(current_doc)
    }
}

} // verus!
