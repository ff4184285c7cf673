//! Collectors: consumers of matching documents found by a bulk scorer.
//!
//! A collector is specified by the sequence of documents it has been handed
//! ([`Collector::collected`]) and an early-termination latch
//! ([`Collector::terminated`]). Early termination is an explicit
//! [`CollectStatus`] handed back from `collect`, not an error.

use vstd::prelude::*;

use crate::errors::IndexError;
use crate::search::{DocIterator, Scorer, NO_MORE_DOCS};
use crate::DocId;

verus! {

/// What a collector asks of its caller after one document.
#[derive(Debug, Clone, Copy, PartialEq, Eq)]
pub enum CollectStatus {
    /// Keep collecting.
    Continue,
    /// Stop the whole collection.
    Terminate,
    /// Stop collecting this leaf.
    TerminateLeaf,
}

/// Where a leaf's documents live in the global id space.
#[derive(Debug, Clone, Copy, PartialEq, Eq)]
pub struct LeafReaderContext {
    /// The position of the leaf among its siblings.
    pub ord: usize,
    /// Added to a leaf-local document id to obtain the global one.
    pub doc_base: DocId,
}

/// A leaf-local document id in the global space, clamped at the top of the
/// id range like the executable addition.
pub open spec fn clamped_doc(base: int, doc: int) -> int {
    if base + doc <= 0x7FFF_FFFF {
        base + doc
    } else {
        0x7FFF_FFFF
    }
}

/// A consumer of matching documents, called in ascending id order per leaf.
pub trait Collector: Sized {
    /// The leaf-local document ids handed to `collect`, in order.
    spec fn collected(&self) -> Seq<DocId>;

    /// The (global document, score) pairs handed to `collect`, in order.
    spec fn hits(&self) -> Seq<(int, int)>;

    /// The global id of the current leaf's first document.
    spec fn base(&self) -> int;

    /// Whether this collector has asked to stop.
    spec fn terminated(&self) -> bool;

    /// Well-formedness of the collector state.
    spec fn cinv(&self) -> bool;

    /// Whether this collector reads scores.
    fn needs_scores(&self) -> bool;

    /// Called before any `collect` for a leaf.
    fn set_next_reader(&mut self, ctx: &LeafReaderContext) -> (r: Result<(), IndexError>)
        requires
            old(self).cinv(),
            ctx.doc_base >= 0,
        ensures
            final(self).cinv(),
            final(self).collected() == old(self).collected(),
            final(self).hits() == old(self).hits(),
            final(self).base() == ctx.doc_base as int,
            final(self).terminated() == old(self).terminated(),
    ;

    /// Hands over one matching document; the scorer is positioned on it.
    /// The hit recorded is the document's global id with the score the
    /// scorer reports for it.
    fn collect<S: Scorer>(&mut self, doc: DocId, scorer: &mut S) -> (r: CollectStatus)
        requires
            old(self).cinv(),
            !old(self).terminated(),
            old(scorer).inv(),
            old(scorer).cur() == doc as int,
            0 <= doc < NO_MORE_DOCS,
            old(scorer).docs().contains(doc),
        ensures
            final(self).cinv(),
            *final(scorer) == *old(scorer),
            final(self).collected() == old(self).collected().push(doc),
            final(self).hits() == old(self).hits().push(
                (
                    clamped_doc(old(self).base(), doc as int),
                    old(scorer).score_at(doc as int) as int,
                ),
            ),
            final(self).base() == old(self).base(),
            (r is Continue) <==> !final(self).terminated(),
    ;
}

/// A hit: a global document id with the score it received.
#[derive(Debug, Clone, Copy, PartialEq, Eq)]
pub struct ScoreDoc {
    /// The global document id.
    pub doc: DocId,
    /// The score the document received.
    pub score: i64,
}

impl ScoreDoc {
    /// The global document id.
    pub fn doc_id(&self) -> (r: DocId)
        ensures
            r == self.doc,
    {
        self.doc
    }

    /// The score the document received.
    pub fn score(&self) -> (r: i64)
        ensures
            r == self.score,
    {
        self.score
    }

    /// The hit as a (document, score) pair of the specification.
    pub open spec fn pair(self) -> (int, int) {
        (self.doc as int, self.score as int)
    }
}

/// Whether hit `a` ranks strictly above hit `b`: higher score, ties broken
/// by the lower document id.
pub open spec fn ranks_above(a: (int, int), b: (int, int)) -> bool {
    a.1 > b.1 || (a.1 == b.1 && a.0 < b.0)
}

/// `h` inserted into the rank-ordered sequence `s`, before the first entry
/// it ranks above.
pub open spec fn insert_ranked(s: Seq<(int, int)>, h: (int, int)) -> Seq<(int, int)>
    decreases s.len(),
{
    if s.len() == 0 {
        seq![h]
    } else if ranks_above(h, s[0]) {
        seq![h] + s
    } else {
        seq![s[0]] + insert_ranked(s.drop_first(), h)
    }
}

/// The `k` best hits of `hits` in rank order: every hit inserted in turn,
/// keeping only the first `k`.
pub open spec fn top_ranked(hits: Seq<(int, int)>, k: int) -> Seq<(int, int)>
    decreases hits.len(),
{
    if hits.len() == 0 {
        Seq::empty()
    } else {
        let t = insert_ranked(top_ranked(hits.drop_last(), k), hits.last());
        if t.len() > k {
            t.take(k)
        } else {
            t
        }
    }
}

/// The ranked hits of a finished collection.
pub struct TopDocs {
    total_hits: usize,
    score_docs: Vec<ScoreDoc>,
}

impl TopDocs {
    /// How many documents were collected in all.
    pub closed spec fn spec_total_hits(&self) -> int {
        self.total_hits as int
    }

    /// The kept hits, best first.
    pub closed spec fn spec_score_docs(&self) -> Seq<ScoreDoc> {
        self.score_docs@
    }

    /// How many documents were collected in all.
    pub fn total_hits(&self) -> (r: usize)
        ensures
            r == self.spec_total_hits(),
    {
        self.total_hits
    }

    /// The kept hits, best first.
    pub fn score_docs(&self) -> (r: &Vec<ScoreDoc>)
        ensures
            r@ == self.spec_score_docs(),
    {
        &self.score_docs
    }
}

/// Keeps the `k` best-scoring documents seen so far, ties broken by the
/// lower document id.
pub struct TopDocsCollector {
    limit: usize,
    doc_base: DocId,
    total: usize,
    pq: Vec<ScoreDoc>,
    hits: Ghost<Seq<(int, int)>>,
    raw: Ghost<Seq<DocId>>,
}

impl TopDocsCollector {
    /// How many hits the collector keeps.
    pub closed spec fn limit_spec(&self) -> int {
        self.limit as int
    }

    /// A collector that will keep the `k` best hits.
    pub fn new(k: usize) -> (r: TopDocsCollector)
        ensures
            r.cinv(),
            r.collected() == Seq::<DocId>::empty(),
            r.hits() == Seq::<(int, int)>::empty(),
            !r.terminated(),
            r.limit_spec() == k as int,
    {
        let r = TopDocsCollector {
            limit: k,
            doc_base: 0,
            total: 0,
            pq: Vec::new(),
            hits: Ghost(Seq::empty()),
            raw: Ghost(Seq::empty()),
        };
        proof {
            assert(r.pq@.map_values(|x: ScoreDoc| x.pair()) =~= top_ranked(r.hits@, k as int));
        }
        r
    }

    /// The finished ranking: how many documents were collected, and the `k`
    /// best of the hits, best first.
    pub fn top_docs(self) -> (r: TopDocs)
        requires
            self.cinv(),
        ensures
            r.spec_total_hits() == if self.hits().len() <= usize::MAX {
                self.hits().len() as int
            } else {
                usize::MAX as int
            },
            r.spec_score_docs().map_values(|sd: ScoreDoc| sd.pair()) == top_ranked(
                self.hits(),
                self.limit_spec(),
            ),
    {
        TopDocs { total_hits: self.total, score_docs: self.pq }
    }
}

/// Where `h` goes in the rank-ordered `s`: before index `i`, the first entry
/// `h` ranks above.
proof fn lemma_insert_ranked_at(s: Seq<(int, int)>, h: (int, int), i: int)
    requires
        0 <= i <= s.len(),
        forall|j: int| 0 <= j < i ==> !ranks_above(h, #[trigger] s[j]),
        i < s.len() ==> ranks_above(h, s[i]),
    ensures
        insert_ranked(s, h) == s.take(i) + seq![h] + s.skip(i),
    decreases i,
{
    if s.len() == 0 {
        assert(insert_ranked(s, h) =~= s.take(i) + seq![h] + s.skip(i));
    } else if i == 0 {
        assert(insert_ranked(s, h) =~= s.take(0) + seq![h] + s.skip(0));
    } else {
        assert(!ranks_above(h, s[0]));
        assert forall|j: int| 0 <= j < i - 1 implies !ranks_above(
            h,
            #[trigger] s.drop_first()[j],
        ) by {
            assert(s.drop_first()[j] == s[j + 1]);
        }
        lemma_insert_ranked_at(s.drop_first(), h, i - 1);
        assert(insert_ranked(s, h) =~= s.take(i) + seq![h] + s.skip(i));
    }
}

impl Collector for TopDocsCollector {
    closed spec fn collected(&self) -> Seq<DocId> {
        self.raw@
    }

    closed spec fn hits(&self) -> Seq<(int, int)> {
        self.hits@
    }

    closed spec fn base(&self) -> int {
        self.doc_base as int
    }

    open spec fn terminated(&self) -> bool {
        false
    }

    closed spec fn cinv(&self) -> bool {
        &&& self.pq@.map_values(|sd: ScoreDoc| sd.pair()) == top_ranked(
            self.hits@,
            self.limit as int,
        )
        &&& self.total as int == if self.hits@.len() <= usize::MAX {
            self.hits@.len() as int
        } else {
            usize::MAX as int
        }
        &&& self.doc_base >= 0
    }

    fn needs_scores(&self) -> bool {
        true
    }

    fn set_next_reader(&mut self, ctx: &LeafReaderContext) -> (r: Result<(), IndexError>) {
        self.doc_base = ctx.doc_base;
        Ok(())
    }

    fn collect<S: Scorer>(&mut self, doc: DocId, scorer: &mut S) -> (r: CollectStatus) {
        let score = match scorer.score() {
            Ok(s) => s,
            Err(_) => {
                proof {
                    assert(false);
                }
                0
            },
        };
        let g64: i64 = self.doc_base as i64 + doc as i64;
        let gdoc: DocId = if g64 > 0x7FFF_FFFFi64 {
            0x7FFF_FFFFi32
        } else {
            g64 as i32
        };
        let sd = ScoreDoc { doc: gdoc, score };
        let ghost pairs0 = self.pq@.map_values(|x: ScoreDoc| x.pair());
        // find the first kept entry the new hit ranks above
        let mut i: usize = 0;
        let n = self.pq.len();
        while i < n && !(score > self.pq[i].score || (score == self.pq[i].score && gdoc
            < self.pq[i].doc))
            invariant
                0 <= i <= n,
                n == self.pq@.len(),
                pairs0 == self.pq@.map_values(|x: ScoreDoc| x.pair()),
                sd.pair() == (gdoc as int, score as int),
                forall|j: int| 0 <= j < i ==> !ranks_above(sd.pair(), #[trigger] pairs0[j]),
            decreases n - i,
        {
            proof {
                assert(pairs0[i as int] == self.pq@[i as int].pair());
            }
            i = i + 1;
        }
        proof {
            if i < n {
                assert(pairs0[i as int] == self.pq@[i as int].pair());
            }
            lemma_insert_ranked_at(pairs0, sd.pair(), i as int);
        }
        self.pq.insert(i, sd);
        proof {
            assert(self.pq@.map_values(|x: ScoreDoc| x.pair()) =~= insert_ranked(
                pairs0,
                sd.pair(),
            ));
        }
        if self.pq.len() > self.limit {
            let keep = self.limit;
            self.pq.truncate(keep);
            proof {
                assert(self.pq@.map_values(|x: ScoreDoc| x.pair()) =~= insert_ranked(
                    pairs0,
                    sd.pair(),
                ).take(keep as int));
            }
        }
        if self.total < usize::MAX {
            self.total = self.total + 1;
        }
        proof {
            assert(gdoc as int == clamped_doc(self.doc_base as int, doc as int));
            self.hits@ = self.hits@.push(sd.pair());
            self.raw@ = self.raw@.push(doc);
            assert(self.hits@.drop_last() =~= old(self).hits@);
            assert(self.hits@.last() == sd.pair());
        }
        CollectStatus::Continue
    }
}

/// Counts hits and asks the caller to stop the leaf once `k` have been
/// collected; used over index-order-sorted segments where the first `k`
/// documents are already the best `k`.
pub struct EarlyTerminatingSortingCollector {
    limit: usize,
    count: usize,
    done: bool,
    doc_base: DocId,
    raw: Ghost<Seq<DocId>>,
    hits: Ghost<Seq<(int, int)>>,
}

impl EarlyTerminatingSortingCollector {
    /// A collector that stops its leaf after `k` hits. Asking for no hits at
    /// all stops immediately.
    pub fn new(k: usize) -> (r: EarlyTerminatingSortingCollector)
        requires
            k >= 1,
        ensures
            r.cinv(),
            r.collected() == Seq::<DocId>::empty(),
            !r.terminated(),
    {
        EarlyTerminatingSortingCollector {
            limit: k,
            count: 0,
            done: false,
            doc_base: 0,
            raw: Ghost(Seq::empty()),
            hits: Ghost(Seq::empty()),
        }
    }
}

impl Collector for EarlyTerminatingSortingCollector {
    closed spec fn collected(&self) -> Seq<DocId> {
        self.raw@
    }

    closed spec fn hits(&self) -> Seq<(int, int)> {
        self.hits@
    }

    closed spec fn base(&self) -> int {
        self.doc_base as int
    }

    closed spec fn terminated(&self) -> bool {
        self.done
    }

    closed spec fn cinv(&self) -> bool {
        self.count < self.limit ==> !self.done
    }

    fn needs_scores(&self) -> bool {
        false
    }

    fn set_next_reader(&mut self, ctx: &LeafReaderContext) -> (r: Result<(), IndexError>) {
        self.doc_base = ctx.doc_base;
        Ok(())
    }

    fn collect<S: Scorer>(&mut self, doc: DocId, scorer: &mut S) -> (r: CollectStatus) {
        if self.count < usize::MAX {
            self.count = self.count + 1;
        }
        proof {
            self.raw@ = self.raw@.push(doc);
            self.hits@ = self.hits@.push(
                (
                    clamped_doc(self.doc_base as int, doc as int),
                    scorer.score_at(doc as int) as int,
                ),
            );
        }
        if self.count >= self.limit {
            self.done = true;
            CollectStatus::TerminateLeaf
        } else {
            CollectStatus::Continue
        }
    }
}

/// Forwards every document to two collectors, stopping the whole chain as
/// soon as either asks to stop.
pub struct ChainedCollector<A: Collector, B: Collector> {
    /// The first chained collector.
    pub first: A,
    /// The second chained collector.
    pub second: B,
}

impl<A: Collector, B: Collector> ChainedCollector<A, B> {
    /// Chains two collectors.
    pub fn new(first: A, second: B) -> (r: ChainedCollector<A, B>)
        ensures
            r.first == first,
            r.second == second,
    {
        ChainedCollector { first, second }
    }
}

impl<A: Collector, B: Collector> Collector for ChainedCollector<A, B> {
    closed spec fn collected(&self) -> Seq<DocId> {
        self.first.collected()
    }

    closed spec fn hits(&self) -> Seq<(int, int)> {
        self.first.hits()
    }

    closed spec fn base(&self) -> int {
        self.first.base()
    }

    closed spec fn terminated(&self) -> bool {
        self.first.terminated() || self.second.terminated()
    }

    closed spec fn cinv(&self) -> bool {
        self.first.cinv() && self.second.cinv()
    }

    fn needs_scores(&self) -> bool {
        self.first.needs_scores() || self.second.needs_scores()
    }

    fn set_next_reader(&mut self, ctx: &LeafReaderContext) -> (r: Result<(), IndexError>) {
        match self.first.set_next_reader(ctx) {
            Ok(()) => (),
            Err(e) => {
                return Err(e);
            },
        }
        self.second.set_next_reader(ctx)
    }

    fn collect<S: Scorer>(&mut self, doc: DocId, scorer: &mut S) -> (r: CollectStatus) {
        let ra = self.first.collect(doc, scorer);
        let rb = self.second.collect(doc, scorer);
        match (ra, rb) {
            (CollectStatus::Continue, CollectStatus::Continue) => CollectStatus::Continue,
            (CollectStatus::Terminate, _) => CollectStatus::Terminate,
            (_, CollectStatus::Terminate) => CollectStatus::Terminate,
            _ => CollectStatus::TerminateLeaf,
        }
    }
}

} // verus!
