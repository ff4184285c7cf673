//! Document iteration and scoring: cost-annotated streams of strictly
//! increasing document ids, optionally split into a cheap approximation
//! phase and an expensive per-candidate confirmation ([`Scorer::matches`]).
//!
//! An iterator is specified by three ghost pieces: the sequence of documents
//! it matches ([`DocIterator::docs`]), the sequence its positioning phase
//! runs over ([`DocIterator::approx`], a superset; the same sequence unless
//! two-phase), and the cursor ([`DocIterator::cur`]), which is `-1` before
//! the first advance and [`NO_MORE_DOCS`] after exhaustion. Every move lands
//! on [`seek`] of the relevant sequence: the first entry at or after the
//! target.

use vstd::prelude::*;

use crate::errors::IndexError;
use crate::DocId;

verus! {

/// When returned by `next()`, `advance(target)` or `doc_id()`, signals that
/// the iterator is exhausted.
pub const NO_MORE_DOCS: DocId = i32::MAX;

/// A well-formed document sequence: strictly increasing, every entry a valid
/// document id below the sentinel.
pub open spec fn is_doc_seq(s: Seq<DocId>) -> bool {
    &&& forall|i: int, j: int| 0 <= i < j < s.len() ==> s[i] < s[j]
    &&& forall|i: int| 0 <= i < s.len() ==> 0 <= #[trigger] s[i] < NO_MORE_DOCS
}

/// The first entry of `s` at or after `t`, or [`NO_MORE_DOCS`] if none.
pub open spec fn seek(s: Seq<DocId>, t: int) -> int
    decreases s.len(),
{
    if s.len() == 0 {
        NO_MORE_DOCS as int
    } else if s[0] >= t {
        s[0] as int
    } else {
        seek(s.drop_first(), t)
    }
}

/// Dropping the first entry keeps a document sequence well-formed.
pub proof fn lemma_doc_seq_drop_first(s: Seq<DocId>)
    requires
        is_doc_seq(s),
        s.len() > 0,
    ensures
        is_doc_seq(s.drop_first()),
{
    assert forall|i: int| 0 <= i < s.drop_first().len() implies 0 <= #[trigger] s.drop_first()[i]
        < NO_MORE_DOCS by {
        assert(s.drop_first()[i] == s[i + 1]);
    }
    assert forall|i: int, j: int| 0 <= i < j < s.drop_first().len() implies s.drop_first()[i]
        < s.drop_first()[j] by {
        assert(s.drop_first()[i] == s[i + 1]);
        assert(s.drop_first()[j] == s[j + 1]);
    }
}

/// What seeking finds: a member at or after the target (or the sentinel),
/// minimal among members at or after the target, with nothing in between.
pub proof fn lemma_seek_props(s: Seq<DocId>, t: int)
    requires
        is_doc_seq(s),
    ensures
        seek(s, t) == NO_MORE_DOCS as int || (0 <= seek(s, t) < NO_MORE_DOCS && s.contains(
            seek(s, t) as DocId,
        ) && seek(s, t) >= t),
        forall|i: int| 0 <= i < s.len() && s[i] >= t ==> seek(s, t) <= #[trigger] s[i],
        forall|i: int| 0 <= i < s.len() ==> !(t <= #[trigger] s[i] < seek(s, t)),
    decreases s.len(),
{
    if s.len() == 0 {
    } else if s[0] >= t {
        assert(s.contains(s[0])) by {
            assert(s[0] == s[0]);
        }
    } else {
        lemma_doc_seq_drop_first(s);
        lemma_seek_props(s.drop_first(), t);
        let r = seek(s, t);
        assert(seek(s.drop_first(), t) == r);
        if r != NO_MORE_DOCS as int {
            assert(s.drop_first().contains(r as DocId));
            let i = choose|i: int|
                0 <= i < s.drop_first().len() && s.drop_first()[i] == r as DocId;
            assert(s[i + 1] == r as DocId);
            assert(s.contains(r as DocId));
        }
        assert forall|i: int| 0 <= i < s.len() && s[i] >= t implies r <= #[trigger] s[i] by {
            if i > 0 {
                assert(s.drop_first()[i - 1] == s[i]);
            }
        }
        assert forall|i: int| 0 <= i < s.len() implies !(t <= #[trigger] s[i] < r) by {
            if i > 0 {
                assert(s.drop_first()[i - 1] == s[i]);
            }
        }
    }
}

/// Seeking never lands below the target (as long as the target is no more
/// than the sentinel) and never beyond the sentinel.
pub proof fn lemma_seek_bounds(s: Seq<DocId>, t: int)
    requires
        is_doc_seq(s),
        t <= NO_MORE_DOCS as int,
    ensures
        t <= seek(s, t) <= NO_MORE_DOCS as int,
{
    lemma_seek_props(s, t);
}

/// Seeking from two targets with no entry between them finds the same entry.
pub proof fn lemma_seek_skip(s: Seq<DocId>, t1: int, t2: int)
    requires
        is_doc_seq(s),
        t1 <= t2,
        forall|i: int| 0 <= i < s.len() ==> !(t1 <= #[trigger] s[i] < t2),
    ensures
        seek(s, t1) == seek(s, t2),
    decreases s.len(),
{
    if s.len() > 0 {
        lemma_doc_seq_drop_first(s);
        if s[0] < t1 {
            assert forall|i: int| 0 <= i < s.drop_first().len() implies !(t1
                <= #[trigger] s.drop_first()[i] < t2) by {
                assert(s.drop_first()[i] == s[i + 1]);
            }
            lemma_seek_skip(s.drop_first(), t1, t2);
        } else {
            assert(s[0] >= t2);
        }
    }
}

/// Seeking at a member finds that member.
pub proof fn lemma_seek_member(s: Seq<DocId>, d: DocId)
    requires
        is_doc_seq(s),
        s.contains(d),
    ensures
        seek(s, d as int) == d as int,
{
    lemma_seek_props(s, d as int);
    let i = choose|i: int| 0 <= i < s.len() && s[i] == d;
    assert(s[i] >= d as int);
}

/// Seeking at the sentinel always exhausts.
pub proof fn lemma_seek_exhausted(s: Seq<DocId>, t: int)
    requires
        is_doc_seq(s),
        t >= NO_MORE_DOCS as int,
    ensures
        seek(s, t) == NO_MORE_DOCS as int,
{
    lemma_seek_props(s, t);
}

/// A stateful cursor over a set of non-decreasing document ids.
///
/// `docs` is the full match list, `approx` the list the positioning phase
/// walks (the same list unless the implementation is two-phase), and `cur`
/// the cursor. Every method that moves the cursor lands on the first entry
/// of the relevant list at or after its target.
pub trait DocIterator: Sized {
    /// The documents this iterator matches, in increasing order. Constant
    /// over the iterator's lifetime.
    spec fn docs(&self) -> Seq<DocId>;

    /// The documents the positioning phase walks: a superset of `docs`,
    /// equal to it unless the implementation is two-phase.
    spec fn approx(&self) -> Seq<DocId>;

    /// The cursor: `-1` before the first advance, `NO_MORE_DOCS` after
    /// exhaustion, otherwise an entry of `approx`.
    spec fn cur(&self) -> int;

    /// Well-formedness of the iterator state.
    spec fn inv(&self) -> bool;

    /// What well-formedness guarantees about the ghost pieces.
    proof fn inv_facts(&self)
        requires
            self.inv(),
        ensures
            is_doc_seq(self.docs()),
            is_doc_seq(self.approx()),
            forall|d: DocId| self.docs().contains(d) ==> self.approx().contains(d),
            self.cur() == -1 || self.cur() == NO_MORE_DOCS as int || self.approx().contains(
                self.cur() as DocId,
            ),
            -1 <= self.cur() <= NO_MORE_DOCS as int,
    ;

    /// The document the cursor is on.
    fn doc_id(&self) -> (r: DocId)
        requires
            self.inv(),
        ensures
            r as int == self.cur(),
    ;

    /// Moves to the next matching document and returns it, or
    /// `NO_MORE_DOCS` if there is none. Must not be called after exhaustion.
    fn next(&mut self) -> (r: Result<DocId, IndexError>)
        requires
            old(self).inv(),
            old(self).cur() != NO_MORE_DOCS as int,
        ensures
            final(self).inv(),
            final(self).docs() == old(self).docs(),
            final(self).approx() == old(self).approx(),
            final(self).cur() == seek(old(self).docs(), old(self).cur() + 1),
            final(self).two_phase() == old(self).two_phase(),
            forall|d: int| final(self).score_at(d) == old(self).score_at(d),
            r == Ok::<DocId, IndexError>(final(self).cur() as DocId),
    ;

    /// Moves to the first matching document at or after `target` and
    /// returns it, or `NO_MORE_DOCS` if there is none. Must only be called
    /// with a target beyond the cursor.
    fn advance(&mut self, target: DocId) -> (r: Result<DocId, IndexError>)
        requires
            old(self).inv(),
            old(self).cur() < target as int,
        ensures
            final(self).inv(),
            final(self).docs() == old(self).docs(),
            final(self).approx() == old(self).approx(),
            final(self).cur() == seek(old(self).docs(), target as int),
            final(self).two_phase() == old(self).two_phase(),
            forall|d: int| final(self).score_at(d) == old(self).score_at(d),
            r == Ok::<DocId, IndexError>(final(self).cur() as DocId),
    ;

    /// Linear fallback for `advance`, built on `next`.
    fn slow_advance(&mut self, target: DocId) -> (r: Result<DocId, IndexError>)
        requires
            old(self).inv(),
            old(self).cur() < target as int,
        ensures
            final(self).inv(),
            final(self).docs() == old(self).docs(),
            final(self).approx() == old(self).approx(),
            final(self).cur() == seek(old(self).docs(), target as int),
            final(self).two_phase() == old(self).two_phase(),
            forall|d: int| final(self).score_at(d) == old(self).score_at(d),
            r == Ok::<DocId, IndexError>(final(self).cur() as DocId),
    {
        proof {
            old(self).inv_facts();
        }
        let ghost docs0 = old(self).docs();
        let mut doc = self.doc_id();
        while doc < target
            invariant
                self.inv(),
                docs0 == old(self).docs(),
                self.docs() == docs0,
                self.approx() == old(self).approx(),
                self.two_phase() == old(self).two_phase(),
                forall|d: int| self.score_at(d) == old(self).score_at(d),
                self.cur() == doc as int,
                doc >= target ==> doc as int == seek(docs0, target as int),
            decreases NO_MORE_DOCS as int - doc,
        {
            proof {
                self.inv_facts();
            }
            let ghost prev = self.cur();
            doc = match self.next() {
                Ok(d) => d,
                Err(e) => {
                    proof {
                        assert(false);
                    }
                    return Err(e);
                },
            };
            proof {
                lemma_seek_props(docs0, prev + 1);
                lemma_seek_bounds(docs0, prev + 1);
                if doc >= target {
                    assert forall|i: int| 0 <= i < docs0.len() implies !(prev + 1
                        <= #[trigger] docs0[i] < target as int) by {
                        assert(!(prev + 1 <= docs0[i] < seek(docs0, prev + 1)));
                    }
                    lemma_seek_skip(docs0, prev + 1, target as int);
                }
            }
        }
        Ok(doc)
    }

    /// An upper-bound hint of how many documents this iterator might match;
    /// may be a rough heuristic.
    fn cost(&self) -> (r: usize)
        ensures
            r as int >= self.docs().len(),
    ;

    /// Whether the document the approximation is positioned on really
    /// matches. Must only be called while positioned.
    fn matches(&mut self) -> (r: Result<bool, IndexError>)
        requires
            old(self).inv(),
            0 <= old(self).cur() < NO_MORE_DOCS as int,
        ensures
            *final(self) == *old(self),
            r == Ok::<bool, IndexError>(old(self).docs().contains(old(self).cur() as DocId)),
    ;

    /// An estimate of the work one `matches` call costs, in simple
    /// operations.
    fn match_cost(&self) -> u64;

    /// Whether this iterator advertises two-phase iteration: a cheap
    /// approximation phase with per-candidate confirmation.
    spec fn two_phase(&self) -> bool;

    /// The score this cursor would report when positioned on `doc`; fixed
    /// over the iterator's lifetime, like the match list itself.
    spec fn score_at(&self, doc: int) -> i64;

    /// An iterator that is not two-phase walks its matches directly.
    proof fn two_phase_facts(&self)
        requires
            self.inv(),
        ensures
            !self.two_phase() ==> self.approx() == self.docs(),
    ;

    /// Moves the approximation to its next entry and returns it, or
    /// `NO_MORE_DOCS`. Must not be called after exhaustion.
    fn approximate_next(&mut self) -> (r: Result<DocId, IndexError>)
        requires
            old(self).inv(),
            old(self).cur() != NO_MORE_DOCS as int,
        ensures
            final(self).inv(),
            final(self).docs() == old(self).docs(),
            final(self).approx() == old(self).approx(),
            final(self).cur() == seek(old(self).approx(), old(self).cur() + 1),
            final(self).two_phase() == old(self).two_phase(),
            forall|d: int| final(self).score_at(d) == old(self).score_at(d),
            r == Ok::<DocId, IndexError>(final(self).cur() as DocId),
    ;

    /// Moves the approximation to its first entry at or after `target` and
    /// returns it, or `NO_MORE_DOCS`. Must only be called with a target
    /// beyond the cursor.
    fn approximate_advance(&mut self, target: DocId) -> (r: Result<DocId, IndexError>)
        requires
            old(self).inv(),
            old(self).cur() < target as int,
        ensures
            final(self).inv(),
            final(self).docs() == old(self).docs(),
            final(self).approx() == old(self).approx(),
            final(self).cur() == seek(old(self).approx(), target as int),
            final(self).two_phase() == old(self).two_phase(),
            forall|d: int| final(self).score_at(d) == old(self).score_at(d),
            r == Ok::<DocId, IndexError>(final(self).cur() as DocId),
    ;
}

/// Common scoring functionality: a [`DocIterator`] that can report a score
/// for the document it is positioned on.
pub trait Scorer: DocIterator {
    /// The score of the current document. Must only be called while
    /// positioned on a matching document.
    fn score(&mut self) -> (r: Result<i64, IndexError>)
        requires
            old(self).inv(),
            0 <= old(self).cur() < NO_MORE_DOCS as int,
            old(self).docs().contains(old(self).cur() as DocId),
        ensures
            *final(self) == *old(self),
            r == Ok::<i64, IndexError>(old(self).score_at(old(self).cur())),
    ;

    /// Whether this scorer supports two-phase iteration.
    fn support_two_phase(&self) -> (r: bool)
        requires
            self.inv(),
        ensures
            r == self.two_phase(),
    ;
}

/// Drives a two-phase scorer from its current approximate position to the
/// first confirmed match at or after it: the first entry of `docs` at or
/// after the cursor, or `NO_MORE_DOCS`.
pub fn two_phase_next<S: Scorer>(scorer: &mut S) -> (r: Result<DocId, IndexError>)
    requires
        old(scorer).inv(),
        0 <= old(scorer).cur(),
    ensures
        final(scorer).inv(),
        final(scorer).docs() == old(scorer).docs(),
        final(scorer).approx() == old(scorer).approx(),
        final(scorer).cur() == seek(old(scorer).docs(), old(scorer).cur()),
        final(scorer).two_phase() == old(scorer).two_phase(),
        forall|d: int| final(scorer).score_at(d) == old(scorer).score_at(d),
        r == Ok::<DocId, IndexError>(final(scorer).cur() as DocId),
{
    proof {
        old(scorer).inv_facts();
    }
    let ghost docs0 = old(scorer).docs();
    let ghost start = old(scorer).cur();
    let mut doc = scorer.doc_id();
    loop
        invariant
            scorer.inv(),
            docs0 == old(scorer).docs(),
            start == old(scorer).cur(),
            scorer.docs() == docs0,
            scorer.approx() == old(scorer).approx(),
            scorer.two_phase() == old(scorer).two_phase(),
            forall|d: int| scorer.score_at(d) == old(scorer).score_at(d),
            scorer.cur() == doc as int,
            0 <= doc,
            seek(docs0, start) == seek(docs0, doc as int),
        decreases NO_MORE_DOCS as int - doc,
    {
        proof {
            scorer.inv_facts();
        }
        if doc == NO_MORE_DOCS {
            proof {
                lemma_seek_exhausted(docs0, doc as int);
            }
            return Ok(NO_MORE_DOCS);
        }
        let m = match scorer.matches() {
            Ok(m) => m,
            Err(e) => {
                proof {
                    assert(false);
                }
                return Err(e);
            },
        };
        if m {
            proof {
                lemma_seek_member(docs0, doc);
            }
            return Ok(doc);
        }
        let ghost prev = doc as int;
        doc = match scorer.approximate_next() {
            Ok(d) => d,
            Err(e) => {
                proof {
                    assert(false);
                }
                return Err(e);
            },
        };
        proof {
            let approx0 = scorer.approx();
            lemma_seek_props(approx0, prev + 1);
            lemma_seek_bounds(approx0, prev + 1);
            assert forall|i: int| 0 <= i < docs0.len() implies !(prev <= #[trigger] docs0[i]
                < doc as int) by {
                if docs0[i] == prev {
                    assert(docs0.contains(docs0[i]));
                } else {
                    assert(approx0.contains(docs0[i])) by {
                        assert(docs0.contains(docs0[i]));
                    }
                    let j = choose|j: int|
                        0 <= j < approx0.len() && approx0[j] == docs0[i];
                    assert(!(prev + 1 <= approx0[j] < seek(approx0, prev + 1)));
                }
            }
            lemma_seek_skip(docs0, prev, doc as int);
        }
    }
}

} // verus!

verus! {

/// Law: document iteration progresses strictly and never passes the
/// sentinel. Each `next` lands on `seek(docs, cur + 1)`, which this lemma
/// shows is strictly beyond the old cursor and at most `NO_MORE_DOCS`: an
/// iterator's emitted document ids are strictly increasing until the
/// sentinel, and every one of them is at most the sentinel.
pub proof fn lemma_next_strictly_increases(docs: Seq<DocId>, cur: int)
    requires
        is_doc_seq(docs),
        -1 <= cur < NO_MORE_DOCS as int,
    ensures
        cur < seek(docs, cur + 1) <= NO_MORE_DOCS as int,
{
    lemma_seek_bounds(docs, cur + 1);
}

/// The first entry of `approx` at or after `c` that `docs` confirms, or the
/// sentinel: what enumerating the approximation and filtering by `matches`
/// yields.
pub open spec fn confirmed_seek(approx: Seq<DocId>, docs: Seq<DocId>, c: int) -> int
    decreases approx.len(),
{
    if approx.len() == 0 {
        NO_MORE_DOCS as int
    } else if approx[0] >= c && docs.contains(approx[0]) {
        approx[0] as int
    } else {
        confirmed_seek(approx.drop_first(), docs, c)
    }
}

/// Law: two-phase equivalence. Enumerating the approximation and keeping the
/// entries that `matches` confirms visits exactly the entries that direct
/// enumeration of the match list visits: from any position, the next
/// confirmed approximate entry is the next match.
pub proof fn lemma_two_phase_equivalence(approx: Seq<DocId>, docs: Seq<DocId>, c: int)
    requires
        is_doc_seq(approx),
        is_doc_seq(docs),
        forall|d: DocId| docs.contains(d) && d >= c ==> approx.contains(d),
    ensures
        confirmed_seek(approx, docs, c) == seek(docs, c),
    decreases approx.len(),
{
    lemma_seek_props(docs, c);
    if approx.len() == 0 {
        if seek(docs, c) != NO_MORE_DOCS as int {
            assert(approx.contains(seek(docs, c) as DocId));
        }
    } else if approx[0] >= c && docs.contains(approx[0]) {
        let a0 = approx[0];
        assert(seek(docs, c) <= a0 as int) by {
            let i = choose|i: int| 0 <= i < docs.len() && docs[i] == a0;
        }
        if seek(docs, c) < a0 as int {
            let r = seek(docs, c) as DocId;
            assert(docs.contains(r));
            assert(approx.contains(r));
            let j = choose|j: int| 0 <= j < approx.len() && approx[j] == r;
            assert(j > 0 ==> approx[0] < approx[j]);
            assert(false);
        }
    } else {
        lemma_doc_seq_drop_first(approx);
        assert forall|d: DocId| docs.contains(d) && d >= c implies approx.drop_first().contains(
            d,
        ) by {
            assert(approx.contains(d));
            let j = choose|j: int| 0 <= j < approx.len() && approx[j] == d;
            if j == 0 {
                assert(approx[0] >= c && docs.contains(approx[0]));
            } else {
                assert(approx.drop_first()[j - 1] == d);
            }
        }
        lemma_two_phase_equivalence(approx.drop_first(), docs, c);
    }
}

/// Iterates the non-decreasing term positions within one document.
pub trait TermIterator: Sized {
    /// Advances to the next position; check `has_next` first.
    fn next(&mut self);

    /// Whether another position remains.
    fn has_next(&self) -> bool;

    /// The start offset of the current position.
    fn start_offset(&self) -> u32;

    /// The end offset of the current position.
    fn end_offset(&self) -> u32;

    /// The current position.
    fn position(&self) -> u32;

    /// The payload of the current position.
    fn payload(&self) -> &[u8];
}

/// An iterator over no documents: exhausted by its first advance.
#[derive(Clone, Copy)]
pub struct EmptyDocIterator {
    current: DocId,
}

impl Default for EmptyDocIterator {
    /// A fresh empty iterator, not yet advanced.
    fn default() -> (r: Self)
        ensures
            r.inv(),
            r.cur() == -1,
            r.docs() == Seq::<DocId>::empty(),
    {
        EmptyDocIterator { current: -1 }
    }
}

impl DocIterator for EmptyDocIterator {
    closed spec fn docs(&self) -> Seq<DocId> {
        Seq::empty()
    }

    closed spec fn approx(&self) -> Seq<DocId> {
        Seq::empty()
    }

    closed spec fn cur(&self) -> int {
        self.current as int
    }

    closed spec fn inv(&self) -> bool {
        self.current == -1 || self.current == NO_MORE_DOCS
    }

    proof fn inv_facts(&self) {
    }

    closed spec fn two_phase(&self) -> bool {
        false
    }

    closed spec fn score_at(&self, doc: int) -> i64 {
        0
    }

    proof fn two_phase_facts(&self) {
    }

    fn doc_id(&self) -> (r: DocId) {
        self.current
    }

    fn next(&mut self) -> (r: Result<DocId, IndexError>) {
        self.current = NO_MORE_DOCS;
        Ok(NO_MORE_DOCS)
    }

    fn advance(&mut self, _target: DocId) -> (r: Result<DocId, IndexError>) {
        self.current = NO_MORE_DOCS;
        Ok(NO_MORE_DOCS)
    }

    fn cost(&self) -> (r: usize)
        ensures
            r == 0,
    {
        0
    }

    fn matches(&mut self) -> (r: Result<bool, IndexError>) {
        Ok(false)
    }

    fn match_cost(&self) -> u64 {
        0
    }

    fn approximate_next(&mut self) -> (r: Result<DocId, IndexError>) {
        self.current = NO_MORE_DOCS;
        Ok(NO_MORE_DOCS)
    }

    fn approximate_advance(&mut self, _target: DocId) -> (r: Result<DocId, IndexError>) {
        self.current = NO_MORE_DOCS;
        Ok(NO_MORE_DOCS)
    }
}

/// A scorer that matches no documents; asking it for a score is a caller
/// error, which its contract rules out.
pub struct MatchNoDocScorer {
    iterator: EmptyDocIterator,
}

impl Default for MatchNoDocScorer {
    /// A fresh scorer over no documents.
    fn default() -> (r: Self)
        ensures
            r.inv(),
            r.cur() == -1,
            r.docs() == Seq::<DocId>::empty(),
    {
        MatchNoDocScorer { iterator: EmptyDocIterator { current: -1 } }
    }
}

impl DocIterator for MatchNoDocScorer {
    closed spec fn docs(&self) -> Seq<DocId> {
        Seq::empty()
    }

    closed spec fn approx(&self) -> Seq<DocId> {
        Seq::empty()
    }

    closed spec fn cur(&self) -> int {
        self.iterator.cur()
    }

    closed spec fn inv(&self) -> bool {
        self.iterator.inv()
    }

    proof fn inv_facts(&self) {
        self.iterator.inv_facts();
    }

    closed spec fn two_phase(&self) -> bool {
        false
    }

    closed spec fn score_at(&self, doc: int) -> i64 {
        0
    }

    proof fn two_phase_facts(&self) {
    }

    fn doc_id(&self) -> (r: DocId) {
        self.iterator.doc_id()
    }

    fn next(&mut self) -> (r: Result<DocId, IndexError>) {
        self.iterator.next()
    }

    fn advance(&mut self, target: DocId) -> (r: Result<DocId, IndexError>) {
        self.iterator.advance(target)
    }

    fn cost(&self) -> (r: usize)
        ensures
            r == 0,
    {
        0
    }

    fn matches(&mut self) -> (r: Result<bool, IndexError>) {
        Ok(false)
    }

    fn match_cost(&self) -> u64 {
        0
    }

    fn approximate_next(&mut self) -> (r: Result<DocId, IndexError>) {
        self.iterator.approximate_next()
    }

    fn approximate_advance(&mut self, target: DocId) -> (r: Result<DocId, IndexError>) {
        self.iterator.approximate_advance(target)
    }
}

impl Scorer for MatchNoDocScorer {
    fn score(&mut self) -> (r: Result<i64, IndexError>) {
        proof {
            assert(false);
        }
        vstd::pervasive::unreached()
    }

    fn support_two_phase(&self) -> (r: bool) {
        false
    }
}

} // verus!

verus! {

/// Whether `v` holds `d`.
pub fn contains_doc(v: &Vec<DocId>, d: DocId) -> (r: bool)
    ensures
        r == v@.contains(d),
{
    let n = v.len();
    let mut i: usize = 0;
    while i < n
        invariant
            0 <= i <= n,
            n == v@.len(),
            forall|k: int| 0 <= k < i ==> v@[k] != d,
        decreases n - i,
    {
        if v[i] == d {
            return true;
        }
        i = i + 1;
    }
    proof {
        if v@.contains(d) {
            let j = choose|j: int| 0 <= j < v@.len() && v@[j] == d;
        }
    }
    false
}

/// Seeking at the successor of an entry finds the following entry.
pub proof fn lemma_seek_successor(s: Seq<DocId>, i: int)
    requires
        is_doc_seq(s),
        0 <= i < s.len(),
    ensures
        seek(s, s[i] + 1) == if i + 1 < s.len() {
            s[i + 1] as int
        } else {
            NO_MORE_DOCS as int
        },
{
    lemma_seek_props(s, s[i] + 1);
    let r = seek(s, s[i] + 1);
    if i + 1 < s.len() {
        assert(s[i + 1] >= s[i] + 1);
        assert(r <= s[i + 1]);
        if r != s[i + 1] as int {
            assert(r < NO_MORE_DOCS as int);
            assert(s.contains(r as DocId));
            let j = choose|j: int| 0 <= j < s.len() && s[j] == r as DocId;
            assert(s[j] >= s[i] + 1);
            assert(j > i);
            assert(j >= i + 1);
            assert(j > i + 1 ==> s[i + 1] < s[j]);
            assert(false);
        }
    } else {
        if r != NO_MORE_DOCS as int {
            assert(s.contains(r as DocId));
            let j = choose|j: int| 0 <= j < s.len() && s[j] == r as DocId;
            assert(s[j] >= s[i] + 1);
            assert(j > i);
            assert(false);
        }
    }
}

/// A document iterator over an explicit, strictly increasing list of ids.
pub struct MockDocIterator {
    doc_ids: Vec<DocId>,
    current_doc_id: DocId,
    offset: i32,
}

impl MockDocIterator {
    /// An iterator over `ids`, not yet advanced.
    pub fn new(ids: Vec<DocId>) -> (r: MockDocIterator)
        requires
            is_doc_seq(ids@),
            ids@.len() < 0x7FFF_FFFF,
        ensures
            r.inv(),
            r.docs() == ids@,
            r.approx() == ids@,
            r.cur() == -1,
    {
        MockDocIterator { doc_ids: ids, current_doc_id: -1, offset: -1 }
    }

    /// The cursor is on the entry the offset points at, before all entries,
    /// or exhausted.
    pub closed spec fn offset_linked(doc_ids: Seq<DocId>, current: DocId, offset: i32) -> bool {
        &&& -1 <= offset
        &&& (offset == -1 ==> current == -1)
        &&& (0 <= offset < doc_ids.len() ==> current == doc_ids[offset as int])
        &&& (offset >= doc_ids.len() ==> current == NO_MORE_DOCS && offset == doc_ids.len())
    }

    /// One step of the cursor, shared by plain and approximate advancing.
    fn step(&mut self) -> (r: Result<DocId, IndexError>)
        requires
            old(self).inv(),
            old(self).cur() != NO_MORE_DOCS as int,
        ensures
            final(self).inv(),
            final(self).docs() == old(self).docs(),
            final(self).cur() == seek(old(self).docs(), old(self).cur() + 1),
            final(self).two_phase() == old(self).two_phase(),
            r == Ok::<DocId, IndexError>(final(self).cur() as DocId),
    {
        let ghost ids = self.doc_ids@;
        let ghost oldoff = self.offset;
        self.offset = self.offset + 1;
        if (self.offset as usize) >= self.doc_ids.len() {
            self.current_doc_id = NO_MORE_DOCS;
        } else {
            self.current_doc_id = self.doc_ids[self.offset as usize];
        }
        proof {
            if oldoff == -1 {
                if ids.len() > 0 {
                    assert(seek(ids, 0) == ids[0] as int);
                }
            } else {
                lemma_seek_successor(ids, oldoff as int);
            }
        }
        Ok(self.current_doc_id)
    }
}

impl DocIterator for MockDocIterator {
    closed spec fn docs(&self) -> Seq<DocId> {
        self.doc_ids@
    }

    closed spec fn approx(&self) -> Seq<DocId> {
        self.doc_ids@
    }

    closed spec fn cur(&self) -> int {
        self.current_doc_id as int
    }

    closed spec fn inv(&self) -> bool {
        &&& is_doc_seq(self.doc_ids@)
        &&& self.doc_ids@.len() < 0x7FFF_FFFF
        &&& MockDocIterator::offset_linked(self.doc_ids@, self.current_doc_id, self.offset)
    }

    proof fn inv_facts(&self) {
        if 0 <= self.offset && (self.offset as int) < self.doc_ids@.len() {
            assert(self.doc_ids@.contains(self.doc_ids@[self.offset as int]));
        }
    }

    closed spec fn two_phase(&self) -> bool {
        false
    }

    closed spec fn score_at(&self, doc: int) -> i64 {
        doc as i64
    }

    proof fn two_phase_facts(&self) {
    }

    fn doc_id(&self) -> (r: DocId) {
        self.current_doc_id
    }

    fn next(&mut self) -> (r: Result<DocId, IndexError>) {
        self.step()
    }

    fn advance(&mut self, target: DocId) -> (r: Result<DocId, IndexError>) {
        self.slow_advance(target)
    }

    fn cost(&self) -> usize {
        self.doc_ids.len()
    }

    fn matches(&mut self) -> (r: Result<bool, IndexError>) {
        proof {
            assert(0 <= self.offset && (self.offset as int) < self.doc_ids@.len());
            assert(self.doc_ids@.contains(self.current_doc_id));
        }
        Ok(true)
    }

    fn match_cost(&self) -> u64 {
        0
    }

    fn approximate_next(&mut self) -> (r: Result<DocId, IndexError>) {
        self.step()
    }

    fn approximate_advance(&mut self, target: DocId) -> (r: Result<DocId, IndexError>) {
        self.slow_advance(target)
    }
}

/// A scorer over a plain iterator whose score is the document id itself.
pub struct MockSimpleScorer<T: DocIterator> {
    iterator: T,
}

impl<T: DocIterator> MockSimpleScorer<T> {
    /// Wraps an iterator that walks its matches directly.
    pub fn new(iterator: T) -> (r: MockSimpleScorer<T>)
        requires
            iterator.inv(),
            iterator.approx() == iterator.docs(),
        ensures
            r.inv(),
            r.docs() == iterator.docs(),
            r.cur() == iterator.cur(),
    {
        MockSimpleScorer { iterator }
    }
}

impl<T: DocIterator> DocIterator for MockSimpleScorer<T> {
    closed spec fn docs(&self) -> Seq<DocId> {
        self.iterator.docs()
    }

    closed spec fn approx(&self) -> Seq<DocId> {
        self.iterator.approx()
    }

    closed spec fn cur(&self) -> int {
        self.iterator.cur()
    }

    closed spec fn inv(&self) -> bool {
        self.iterator.inv() && self.iterator.approx() == self.iterator.docs()
    }

    proof fn inv_facts(&self) {
        self.iterator.inv_facts();
    }

    closed spec fn two_phase(&self) -> bool {
        false
    }

    closed spec fn score_at(&self, doc: int) -> i64 {
        doc as i64
    }

    proof fn two_phase_facts(&self) {
    }

    fn doc_id(&self) -> (r: DocId) {
        self.iterator.doc_id()
    }

    fn next(&mut self) -> (r: Result<DocId, IndexError>) {
        self.iterator.next()
    }

    fn advance(&mut self, target: DocId) -> (r: Result<DocId, IndexError>) {
        self.iterator.advance(target)
    }

    fn cost(&self) -> usize {
        self.iterator.cost()
    }

    fn matches(&mut self) -> (r: Result<bool, IndexError>) {
        self.iterator.matches()
    }

    fn match_cost(&self) -> u64 {
        self.iterator.match_cost()
    }

    fn approximate_next(&mut self) -> (r: Result<DocId, IndexError>) {
        self.iterator.approximate_next()
    }

    fn approximate_advance(&mut self, target: DocId) -> (r: Result<DocId, IndexError>) {
        self.iterator.approximate_advance(target)
    }
}

impl<T: DocIterator> Scorer for MockSimpleScorer<T> {
    fn score(&mut self) -> (r: Result<i64, IndexError>) {
        let d = self.iterator.doc_id();
        Ok(d as i64)
    }

    fn support_two_phase(&self) -> (r: bool) {
        false
    }
}

/// A scorer over a doc list, not yet advanced, whose score is the document
/// id itself.
pub fn create_mock_scorer(docs: Vec<DocId>) -> (r: MockSimpleScorer<MockDocIterator>)
    requires
        is_doc_seq(docs@),
        docs@.len() < 0x7FFF_FFFF,
    ensures
        r.inv(),
        r.docs() == docs@,
        r.cur() == -1,
        forall|d: int| r.score_at(d) == d as i64,
{
    MockSimpleScorer::new(MockDocIterator::new(docs))
}

/// A doc list, not yet advanced, as a plain iterator.
pub fn create_mock_doc_iterator(docs: Vec<DocId>) -> (r: MockDocIterator)
    requires
        is_doc_seq(docs@),
        docs@.len() < 0x7FFF_FFFF,
    ensures
        r.inv(),
        r.docs() == docs@,
        r.cur() == -1,
{
    MockDocIterator::new(docs)
}

} // verus!

verus! {

/// The entries of `all` that `invalid` does not hold, in order.
/// A filtered document list is never longer than the list it filters.
pub proof fn lemma_valid_docs_len(all: Seq<DocId>, invalid: Seq<DocId>)
    ensures
        valid_docs(all, invalid).len() <= all.len(),
    decreases all.len(),
{
    if all.len() > 0 {
        lemma_valid_docs_len(all.drop_first(), invalid);
    }
}

pub open spec fn valid_docs(all: Seq<DocId>, invalid: Seq<DocId>) -> Seq<DocId>
    decreases all.len(),
{
    if all.len() == 0 {
        Seq::empty()
    } else {
        let rest = valid_docs(all.drop_first(), invalid);
        if invalid.contains(all[0]) {
            rest
        } else {
            seq![all[0]] + rest
        }
    }
}

/// Removing the invalid entries keeps a document sequence well-formed, and
/// an id remains exactly when `all` holds it and `invalid` does not.
pub proof fn lemma_valid_docs(all: Seq<DocId>, invalid: Seq<DocId>)
    requires
        is_doc_seq(all),
    ensures
        is_doc_seq(valid_docs(all, invalid)),
        forall|d: DocId| #[trigger] valid_docs(all, invalid).contains(d) <==> all.contains(d)
            && !invalid.contains(d),
    decreases all.len(),
{
    let v = valid_docs(all, invalid);
    if all.len() == 0 {
        assert forall|d: DocId| #[trigger] v.contains(d) implies all.contains(d)
            && !invalid.contains(d) by {}
        assert forall|d: DocId| all.contains(d) && !invalid.contains(d) implies #[trigger] v.contains(
            d,
        ) by {}
    } else {
        lemma_doc_seq_drop_first(all);
        lemma_valid_docs(all.drop_first(), invalid);
        let rest = valid_docs(all.drop_first(), invalid);
        assert forall|d: DocId| #[trigger] all.drop_first().contains(d) implies all.contains(d) by {
            let j = choose|j: int| 0 <= j < all.drop_first().len() && all.drop_first()[j] == d;
            assert(all[j + 1] == d);
        }
        assert forall|d: DocId| all.contains(d) && d != all[0] implies all.drop_first().contains(
            d,
        ) by {
            let j = choose|j: int| 0 <= j < all.len() && all[j] == d;
            assert(j != 0);
            assert(all.drop_first()[j - 1] == d);
        }
        if invalid.contains(all[0]) {
            assert forall|d: DocId| #[trigger] v.contains(d) implies all.contains(d)
                && !invalid.contains(d) by {}
            assert forall|d: DocId| all.contains(d) && !invalid.contains(d) implies #[trigger] v.contains(
                d,
            ) by {
                assert(d != all[0]);
            }
        } else {
            assert forall|d: DocId| #[trigger] v.contains(d) implies all.contains(d)
                && !invalid.contains(d) by {
                let j = choose|j: int| 0 <= j < v.len() && v[j] == d;
                if j == 0 {
                    assert(d == all[0]);
                    assert(all.contains(all[0]));
                } else {
                    assert(rest[j - 1] == d);
                    assert(rest.contains(d));
                }
            }
            assert forall|d: DocId| all.contains(d) && !invalid.contains(d) implies #[trigger] v.contains(
                d,
            ) by {
                if d == all[0] {
                    assert(v[0] == d);
                } else {
                    assert(rest.contains(d));
                    let j = choose|j: int| 0 <= j < rest.len() && rest[j] == d;
                    assert(v[j + 1] == d);
                }
            }
            // sortedness: the head is below every kept entry of the tail
            assert forall|i: int, j: int| 0 <= i < j < v.len() implies v[i] < v[j] by {
                if i == 0 {
                    assert(v[j] == rest[j - 1]);
                    assert(rest.contains(rest[j - 1]));
                    assert(all.drop_first().contains(rest[j - 1]));
                    let k = choose|k: int|
                        0 <= k < all.drop_first().len() && all.drop_first()[k] == rest[j - 1];
                    assert(all[k + 1] == rest[j - 1]);
                    assert(all[0] < all[k + 1]);
                } else {
                    assert(v[i] == rest[i - 1] && v[j] == rest[j - 1]);
                }
            }
            assert forall|i: int| 0 <= i < v.len() implies 0 <= #[trigger] v[i] < NO_MORE_DOCS by {
                assert(v.contains(v[i]));
                let k = choose|k: int| 0 <= k < all.len() && all[k] == v[i];
            }
        }
    }
}

/// A two-phase scorer over an explicit list of approximate ids, of which an
/// explicit sub-list is invalid: the approximation walks every id and
/// `matches` rejects the invalid ones. The score is the document id itself.
pub struct MockTwoPhaseScorer {
    all_doc_ids: Vec<DocId>,
    invalid_doc_ids: Vec<DocId>,
    current_doc_id: DocId,
    offset: i32,
}

impl MockTwoPhaseScorer {
    /// A scorer over `all_docs` whose `invalid_docs` entries fail
    /// confirmation, not yet advanced.
    pub fn new(all_docs: Vec<DocId>, invalid_docs: Vec<DocId>) -> (r: MockTwoPhaseScorer)
        requires
            is_doc_seq(all_docs@),
            all_docs@.len() < 0x7FFF_FFFF,
        ensures
            r.inv(),
            r.approx() == all_docs@,
            r.docs() == valid_docs(all_docs@, invalid_docs@),
            r.cur() == -1,
    {
        proof {
            lemma_valid_docs(all_docs@, invalid_docs@);
        }
        MockTwoPhaseScorer {
            all_doc_ids: all_docs,
            invalid_doc_ids: invalid_docs,
            current_doc_id: -1,
            offset: -1,
        }
    }

    /// One step of the approximation cursor.
    fn approx_step(&mut self) -> (r: Result<DocId, IndexError>)
        requires
            old(self).inv(),
            old(self).cur() != NO_MORE_DOCS as int,
        ensures
            final(self).inv(),
            final(self).docs() == old(self).docs(),
            final(self).approx() == old(self).approx(),
            final(self).cur() == seek(old(self).approx(), old(self).cur() + 1),
            final(self).two_phase() == old(self).two_phase(),
            r == Ok::<DocId, IndexError>(final(self).cur() as DocId),
    {
        let ghost ids = self.all_doc_ids@;
        let ghost oldoff = self.offset;
        self.offset = self.offset + 1;
        if (self.offset as usize) >= self.all_doc_ids.len() {
            self.current_doc_id = NO_MORE_DOCS;
        } else {
            self.current_doc_id = self.all_doc_ids[self.offset as usize];
        }
        proof {
            if oldoff == -1 {
                if ids.len() > 0 {
                    assert(seek(ids, 0) == ids[0] as int);
                }
            } else {
                lemma_seek_successor(ids, oldoff as int);
            }
        }
        Ok(self.current_doc_id)
    }

    /// Linear approximate advance, built on single steps.
    fn approx_seek_to(&mut self, target: DocId) -> (r: Result<DocId, IndexError>)
        requires
            old(self).inv(),
            old(self).cur() < target as int,
        ensures
            final(self).inv(),
            final(self).docs() == old(self).docs(),
            final(self).approx() == old(self).approx(),
            final(self).cur() == seek(old(self).approx(), target as int),
            final(self).two_phase() == old(self).two_phase(),
            r == Ok::<DocId, IndexError>(final(self).cur() as DocId),
    {
        proof {
            old(self).inv_facts();
        }
        let ghost approx0 = old(self).approx();
        let mut doc = self.current_doc_id;
        proof {
            assert(doc as int == old(self).cur());
        }
        while doc < target
            invariant
                self.inv(),
                approx0 == old(self).approx(),
                self.docs() == old(self).docs(),
                self.approx() == approx0,
                forall|d: int| self.score_at(d) == old(self).score_at(d),
                self.cur() == doc as int,
                doc >= target ==> doc as int == seek(approx0, target as int),
            decreases NO_MORE_DOCS as int - doc,
        {
            proof {
                self.inv_facts();
            }
            let ghost prev = self.cur();
            doc = match self.approx_step() {
                Ok(d) => d,
                Err(e) => {
                    proof {
                        assert(false);
                    }
                    return Err(e);
                },
            };
            proof {
                lemma_seek_props(approx0, prev + 1);
                lemma_seek_bounds(approx0, prev + 1);
                if doc >= target {
                    assert forall|i: int| 0 <= i < approx0.len() implies !(prev + 1
                        <= #[trigger] approx0[i] < target as int) by {
                        assert(!(prev + 1 <= approx0[i] < seek(approx0, prev + 1)));
                    }
                    lemma_seek_skip(approx0, prev + 1, target as int);
                }
            }
        }
        Ok(doc)
    }
}

impl MockTwoPhaseScorer {
    /// Walks the approximation from the current position to the first entry
    /// that confirmation accepts: the first match at or after the cursor.
    fn confirm(&mut self) -> (r: Result<DocId, IndexError>)
        requires
            old(self).inv(),
            0 <= old(self).cur(),
        ensures
            final(self).inv(),
            final(self).docs() == old(self).docs(),
            final(self).approx() == old(self).approx(),
            final(self).cur() == seek(old(self).docs(), old(self).cur()),
            forall|d: int| final(self).score_at(d) == old(self).score_at(d),
            r == Ok::<DocId, IndexError>(final(self).cur() as DocId),
    {
        proof {
            old(self).inv_facts();
        }
        let ghost docs0 = old(self).docs();
        let ghost start = old(self).cur();
        let mut doc = self.current_doc_id;
        loop
            invariant
                self.inv(),
                docs0 == old(self).docs(),
                start == old(self).cur(),
                self.docs() == docs0,
                self.approx() == old(self).approx(),
                forall|d: int| self.score_at(d) == old(self).score_at(d),
                self.cur() == doc as int,
                0 <= doc,
                seek(docs0, start) == seek(docs0, doc as int),
            decreases NO_MORE_DOCS as int - doc,
        {
            proof {
                self.inv_facts();
            }
            if doc == NO_MORE_DOCS {
                proof {
                    lemma_seek_exhausted(docs0, doc as int);
                }
                return Ok(NO_MORE_DOCS);
            }
            let m = match self.matches() {
                Ok(m) => m,
                Err(e) => {
                    proof {
                        assert(false);
                    }
                    return Err(e);
                },
            };
            if m {
                proof {
                    lemma_seek_member(docs0, doc);
                }
                return Ok(doc);
            }
            let ghost prev = doc as int;
            doc = match self.approx_step() {
                Ok(d) => d,
                Err(e) => {
                    proof {
                        assert(false);
                    }
                    return Err(e);
                },
            };
            proof {
                let approx0 = self.approx();
                lemma_seek_props(approx0, prev + 1);
                lemma_seek_bounds(approx0, prev + 1);
                assert forall|i: int| 0 <= i < docs0.len() implies !(prev <= #[trigger] docs0[i]
                    < doc as int) by {
                    if docs0[i] == prev {
                        assert(docs0.contains(docs0[i]));
                    } else {
                        assert(approx0.contains(docs0[i])) by {
                            assert(docs0.contains(docs0[i]));
                        }
                        let j = choose|j: int|
                            0 <= j < approx0.len() && approx0[j] == docs0[i];
                        assert(!(prev + 1 <= approx0[j] < seek(approx0, prev + 1)));
                    }
                }
                lemma_seek_skip(docs0, prev, doc as int);
            }
        }
    }
}

impl DocIterator for MockTwoPhaseScorer {
    closed spec fn docs(&self) -> Seq<DocId> {
        valid_docs(self.all_doc_ids@, self.invalid_doc_ids@)
    }

    closed spec fn approx(&self) -> Seq<DocId> {
        self.all_doc_ids@
    }

    closed spec fn cur(&self) -> int {
        self.current_doc_id as int
    }

    closed spec fn inv(&self) -> bool {
        &&& is_doc_seq(self.all_doc_ids@)
        &&& self.all_doc_ids@.len() < 0x7FFF_FFFF
        &&& MockDocIterator::offset_linked(self.all_doc_ids@, self.current_doc_id, self.offset)
    }

    proof fn inv_facts(&self) {
        lemma_valid_docs(self.all_doc_ids@, self.invalid_doc_ids@);
        if 0 <= self.offset && (self.offset as int) < self.all_doc_ids@.len() {
            assert(self.all_doc_ids@.contains(self.all_doc_ids@[self.offset as int]));
        }
    }

    closed spec fn two_phase(&self) -> bool {
        true
    }

    closed spec fn score_at(&self, doc: int) -> i64 {
        doc as i64
    }

    proof fn two_phase_facts(&self) {
    }

    fn doc_id(&self) -> (r: DocId) {
        self.current_doc_id
    }

    fn next(&mut self) -> (r: Result<DocId, IndexError>) {
        proof {
            old(self).inv_facts();
        }
        let ghost prev = old(self).cur();
        match self.approx_step() {
            Ok(_) => (),
            Err(e) => {
                proof {
                    assert(false);
                }
                return Err(e);
            },
        }
        proof {
            self.inv_facts();
            lemma_seek_props(self.approx(), prev + 1);
            lemma_seek_bounds(self.approx(), prev + 1);
            assert forall|i: int| 0 <= i < self.docs().len() implies !(prev + 1
                <= #[trigger] self.docs()[i] < self.cur()) by {
                assert(self.docs().contains(self.docs()[i]));
                assert(self.approx().contains(self.docs()[i]));
                let j = choose|j: int|
                    0 <= j < self.approx().len() && self.approx()[j] == self.docs()[i];
                assert(!(prev + 1 <= self.approx()[j] < seek(self.approx(), prev + 1)));
            }
            lemma_seek_skip(self.docs(), prev + 1, self.cur());
        }
        self.confirm()
    }

    fn advance(&mut self, target: DocId) -> (r: Result<DocId, IndexError>) {
        proof {
            old(self).inv_facts();
        }
        match self.approx_seek_to(target) {
            Ok(_) => (),
            Err(e) => {
                proof {
                    assert(false);
                }
                return Err(e);
            },
        }
        proof {
            self.inv_facts();
            lemma_seek_props(self.approx(), target as int);
            lemma_seek_bounds(self.approx(), target as int);
            assert forall|i: int| 0 <= i < self.docs().len() implies !(target as int
                <= #[trigger] self.docs()[i] < self.cur()) by {
                assert(self.docs().contains(self.docs()[i]));
                assert(self.approx().contains(self.docs()[i]));
                let j = choose|j: int|
                    0 <= j < self.approx().len() && self.approx()[j] == self.docs()[i];
                assert(!(target as int <= self.approx()[j] < seek(self.approx(), target as int)));
            }
            lemma_seek_skip(self.docs(), target as int, self.cur());
        }
        self.confirm()
    }

    fn cost(&self) -> (r: usize) {
        proof {
            lemma_valid_docs_len(self.all_doc_ids@, self.invalid_doc_ids@);
        }
        self.all_doc_ids.len()
    }

    fn matches(&mut self) -> (r: Result<bool, IndexError>) {
        proof {
            self.inv_facts();
            assert(0 <= self.offset && (self.offset as int) < self.all_doc_ids@.len());
            assert(self.all_doc_ids@.contains(self.current_doc_id));
            lemma_valid_docs(self.all_doc_ids@, self.invalid_doc_ids@);
            assert(valid_docs(self.all_doc_ids@, self.invalid_doc_ids@).contains(
                self.current_doc_id,
            ) <==> self.all_doc_ids@.contains(self.current_doc_id)
                && !self.invalid_doc_ids@.contains(self.current_doc_id));
        }
        let ok = !contains_doc(&self.invalid_doc_ids, self.current_doc_id);
        Ok(ok)
    }

    fn match_cost(&self) -> u64 {
        1
    }

    fn approximate_next(&mut self) -> (r: Result<DocId, IndexError>) {
        self.approx_step()
    }

    fn approximate_advance(&mut self, target: DocId) -> (r: Result<DocId, IndexError>) {
        self.approx_seek_to(target)
    }
}

impl Scorer for MockTwoPhaseScorer {
    fn score(&mut self) -> (r: Result<i64, IndexError>) {
        let d = self.current_doc_id;
        Ok(d as i64)
    }

    fn support_two_phase(&self) -> (r: bool) {
        true
    }
}

/// A two-phase scorer over `all_docs` whose `invalid_docs` entries fail
/// confirmation, not yet advanced.
pub fn create_mock_two_phase_scorer(all_docs: Vec<DocId>, invalid_docs: Vec<DocId>) -> (r:
    MockTwoPhaseScorer)
    requires
        is_doc_seq(all_docs@),
        all_docs@.len() < 0x7FFF_FFFF,
    ensures
        r.inv(),
        r.approx() == all_docs@,
        r.docs() == valid_docs(all_docs@, invalid_docs@),
        r.cur() == -1,
        forall|d: int| r.score_at(d) == d as i64,
{
    MockTwoPhaseScorer::new(all_docs, invalid_docs)
}

} // verus!
