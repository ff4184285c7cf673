//! Documents, segments and the published index.
//!
//! A buffered document carries the fields it was given, the update key it
//! was bound to (if it arrived through an update), and the sequence number
//! its operation was issued. A delete entry `(term, bound)` kills exactly
//! the documents that match the term and carry a sequence number below the
//! bound; a document is live while no applied delete kills it. The laws
//! about concurrent updates and deletes are stated over this relation.

use vstd::prelude::*;

use crate::delete_queue::{term_entry_views, FrozenBufferedUpdates, Term, TermLiteral};

verus! {

/// One pre-tokenized field of a document: a name and a token's bytes.
#[derive(Debug)]
pub struct Field {
    /// The field name.
    pub name: String,
    /// The token bytes the field holds.
    pub value: Vec<u8>,
}

/// A document as buffered by a per-thread writer.
#[derive(Debug)]
pub struct StoredDocument {
    /// The document's fields.
    pub fields: Vec<Field>,
    /// The update key the document was bound to, if it arrived through an
    /// update: the document is considered to bear this term.
    pub key: Option<Term>,
    /// The sequence number of the operation that buffered the document.
    pub seq: u64,
}

/// Whether a document bears the term: as its update key, or in a field with
/// that name holding those bytes.
pub open spec fn doc_matches(d: StoredDocument, t: TermLiteral) -> bool {
    ||| (d.key matches Some(k) && k.view_of() == t)
    ||| exists|i: int|
        0 <= i < d.fields@.len() && (#[trigger] d.fields@[i]).name@ == t.0 && d.fields@[i].value@
            == t.1
}

/// Whether some applied delete kills the document: it matches the delete's
/// term and its sequence number is below the delete's bound.
pub open spec fn doc_deleted_by(d: StoredDocument, dels: Seq<(TermLiteral, u64)>) -> bool {
    exists|i: int|
        0 <= i < dels.len() && doc_matches(d, (#[trigger] dels[i]).0) && d.seq < dels[i].1
}

/// Law: for every completed update with a term, no document from before the
/// update's sequence number survives bearing that term. The update put its
/// delete entry `(t, seq)` into the log, and that entry kills every matching
/// document whose sequence number is below `seq`.
pub proof fn lemma_update_deletes_older(
    d: StoredDocument,
    dels: Seq<(TermLiteral, u64)>,
    i: int,
)
    requires
        0 <= i < dels.len(),
        doc_matches(d, dels[i].0),
        d.seq < dels[i].1,
    ensures
        doc_deleted_by(d, dels),
{
}

/// Law: of two concurrent updates with the same term, exactly the one with
/// the larger sequence number keeps its document. Each update's delete
/// entry carries its own sequence number, so the later entry kills the
/// earlier document, while nothing kills the later one as long as no delete
/// matching it carries a bound above its number.
pub proof fn lemma_concurrent_updates_one_winner(
    da: StoredDocument,
    db: StoredDocument,
    dels: Seq<(TermLiteral, u64)>,
    t: TermLiteral,
    ia: int,
    ib: int,
)
    requires
        da.key matches Some(ka) && ka.view_of() == t,
        db.key matches Some(kb) && kb.view_of() == t,
        0 <= ia < dels.len() && dels[ia] == (t, da.seq),
        0 <= ib < dels.len() && dels[ib] == (t, db.seq),
        da.seq < db.seq,
        forall|j: int|
            0 <= j < dels.len() && doc_matches(db, (#[trigger] dels[j]).0) ==> dels[j].1 <= db.seq,
    ensures
        doc_deleted_by(da, dels),
        !doc_deleted_by(db, dels),
{
    assert(doc_matches(da, dels[ib].0));
}

/// Law: a concurrent plain delete and an update with the same term resolve
/// by sequence number: the updated document survives if and only if the
/// delete was issued before the update (as long as no other delete matching
/// the document carries a later bound).
pub proof fn lemma_delete_versus_update(
    d: StoredDocument,
    dels: Seq<(TermLiteral, u64)>,
    t: TermLiteral,
    i: int,
)
    requires
        d.key matches Some(k) && k.view_of() == t,
        0 <= i < dels.len() && dels[i].0 == t,
        forall|j: int|
            0 <= j < dels.len() && doc_matches(d, (#[trigger] dels[j]).0) && dels[j].1 != dels[i].1
                ==> dels[j].1 <= d.seq,
    ensures
        doc_deleted_by(d, dels) <==> d.seq < dels[i].1,
{
    if doc_deleted_by(d, dels) {
        let j = choose|j: int|
            0 <= j < dels.len() && doc_matches(d, dels[j].0) && d.seq < dels[j].1;
        assert(dels[j].1 == dels[i].1);
    }
    if d.seq < dels[i].1 {
        assert(doc_matches(d, dels[i].0));
    }
}

/// Whether a document bears the term, executably.
pub fn matches_term(d: &StoredDocument, t: &Term) -> (r: bool)
    ensures
        r == doc_matches(*d, t.view_of()),
{
    match &d.key {
        Some(k) => {
            if k.same_term(t) {
                return true;
            }
        },
        None => (),
    }
    let n = d.fields.len();
    let mut i: usize = 0;
    while i < n
        invariant
            0 <= i <= n,
            n == d.fields@.len(),
            forall|k: int|
                0 <= k < i ==> !((#[trigger] d.fields@[k]).name@ == t.view_of().0
                    && d.fields@[k].value@ == t.view_of().1),
            !(d.key matches Some(k) && k.view_of() == t.view_of()),
        decreases n - i,
    {
        let name_eq = crate::delete_queue::str_eq(d.fields[i].name.as_str(), t.field.as_str());
        let value_eq = crate::delete_queue::slice_eq(
            d.fields[i].value.as_slice(),
            t.bytes.as_slice(),
        );
        if name_eq && value_eq {
            return true;
        }
        i = i + 1;
    }
    false
}

/// Whether some entry of the buffer kills the document, executably.
pub fn deleted_by_entries(d: &StoredDocument, entries: &Vec<(Term, u64)>) -> (r: bool)
    ensures
        r == doc_deleted_by(*d, term_entry_views(entries@)),
{
    let ghost dels = term_entry_views(entries@);
    let n = entries.len();
    let mut i: usize = 0;
    while i < n
        invariant
            0 <= i <= n,
            n == entries@.len(),
            dels == term_entry_views(entries@),
            forall|k: int|
                0 <= k < i ==> !(doc_matches(*d, (#[trigger] dels[k]).0) && d.seq < dels[k].1),
        decreases n - i,
    {
        proof {
            assert(dels[i as int] == (entries@[i as int].0.view_of(), entries@[i as int].1));
        }
        let m = matches_term(d, &entries[i].0);
        if m && d.seq < entries[i].1 {
            return true;
        }
        i = i + 1;
    }
    false
}

/// How many entries of `live` are false: the deleted documents.
pub open spec fn count_dead(live: Seq<bool>) -> int
    decreases live.len(),
{
    if live.len() == 0 {
        0
    } else {
        count_dead(live.drop_last()) + if live.last() {
            0int
        } else {
            1int
        }
    }
}

/// Identity of one immutable segment: name, sixteen-byte id, codec, format
/// version, document count, file set and deletion count.
#[derive(Debug)]
pub struct SegmentInfo {
    /// The segment name.
    pub name: String,
    /// The sixteen-byte segment id.
    pub id: Vec<u8>,
    /// The codec that wrote the segment.
    pub codec: String,
    /// The codec format version.
    pub version: i32,
    /// How many documents the segment holds.
    pub max_doc: u32,
    /// The files the segment consists of.
    pub files: Vec<String>,
    /// How many of the documents are deleted.
    pub del_count: u32,
}

/// A flushed segment: its identity, its documents, and one liveness flag per
/// document.
#[derive(Debug)]
pub struct FlushedSegment {
    /// The segment's identity.
    pub info: SegmentInfo,
    /// The documents, in ingestion order; positions are local document ids.
    pub docs: Vec<StoredDocument>,
    /// Whether each document is still live.
    pub live: Vec<bool>,
}

impl FlushedSegment {
    /// A segment is well-formed when it has one liveness flag per document,
    /// counts its documents, and counts its dead ones.
    pub open spec fn wf(&self) -> bool {
        &&& self.live@.len() == self.docs@.len()
        &&& self.info.max_doc as int == self.docs@.len()
        &&& self.info.del_count as int == count_dead(self.live@)
    }
}

/// How one frozen packet transforms one already published segment: the
/// documents and identity stay, and a document stays live exactly when it
/// was live and the packet does not kill it.
pub open spec fn packet_applied(
    seg0: FlushedSegment,
    seg1: FlushedSegment,
    terms: Seq<(TermLiteral, u64)>,
) -> bool {
    &&& seg1.docs@ == seg0.docs@
    &&& seg1.info.name@ == seg0.info.name@
    &&& seg1.info.max_doc == seg0.info.max_doc
    &&& seg1.live@.len() == seg0.live@.len()
    &&& forall|j: int|
        0 <= j < seg0.live@.len() ==> seg1.live@[j] == (seg0.live@[j] && !doc_deleted_by(
            #[trigger] seg0.docs@[j],
            terms,
        ))
}

/// The segments the index writer has received, in publication order, with
/// every frozen delete packet applied to the segments published before it.
pub struct PublishedIndex {
    /// The published segments, oldest first.
    pub segments: Vec<FlushedSegment>,
    tickets_published: Ghost<Seq<u64>>,
}

impl PublishedIndex {
    /// The ticket numbers published so far, in publication order.
    pub closed spec fn published_tickets(&self) -> Seq<u64> {
        self.tickets_published@
    }

    /// The published segments, oldest first, as the specification sees them.
    pub closed spec fn segments_spec(&self) -> Seq<FlushedSegment> {
        self.segments@
    }

    /// Every published segment is well-formed.
    pub open spec fn wf(&self) -> bool {
        forall|i: int|
            0 <= i < self.segments_spec().len() ==> (#[trigger] self.segments_spec()[i]).wf()
    }

    /// An empty index.
    pub fn new() -> (r: PublishedIndex)
        ensures
            r.wf(),
            r.segments_spec().len() == 0,
            r.published_tickets() == Seq::<u64>::empty(),
    {
        PublishedIndex { segments: Vec::new(), tickets_published: Ghost(Seq::empty()) }
    }

    /// How many live documents one segment holds: its documents less its
    /// deletions, clamped below at zero.
    pub open spec fn seg_live(seg: FlushedSegment) -> int {
        if seg.info.max_doc >= seg.info.del_count {
            seg.info.max_doc - seg.info.del_count
        } else {
            0
        }
    }

    /// How many live documents the first `k` segments hold in all.
    pub open spec fn live_total(segs: Seq<FlushedSegment>, k: int) -> int
        decreases k,
    {
        if k <= 0 {
            0
        } else {
            PublishedIndex::live_total(segs, k - 1) + PublishedIndex::seg_live(segs[k - 1])
        }
    }

    /// How many live documents the index holds in all: the sum over every
    /// segment of its documents less its deletions, saturating at the top of
    /// the range.
    pub fn num_docs(&self) -> (r: u64)
        requires
            self.wf(),
        ensures
            r as int == if PublishedIndex::live_total(
                self.segments_spec(),
                self.segments_spec().len() as int,
            ) <= u64::MAX {
                PublishedIndex::live_total(
                    self.segments_spec(),
                    self.segments_spec().len() as int,
                )
            } else {
                u64::MAX as int
            },
    {
        let mut total: u64 = 0;
        let n = self.segments.len();
        let mut i: usize = 0;
        proof {
            lemma_live_total_nonneg(self.segments_spec(), 0);
        }
        while i < n
            invariant
                0 <= i <= n,
                n == self.segments@.len(),
                self.wf(),
                total as int == if PublishedIndex::live_total(self.segments_spec(), i as int)
                    <= u64::MAX {
                    PublishedIndex::live_total(self.segments_spec(), i as int)
                } else {
                    u64::MAX as int
                },
            decreases n - i,
        {
            let seg_docs = self.segments[i].info.max_doc as u64;
            let seg_dels = self.segments[i].info.del_count as u64;
            let live = if seg_docs >= seg_dels {
                seg_docs - seg_dels
            } else {
                0
            };
            proof {
                lemma_live_total_nonneg(self.segments_spec(), i as int);
                assert(live as int == PublishedIndex::seg_live(self.segments_spec()[i as int]));
            }
            total = if total <= u64::MAX - live {
                total + live
            } else {
                u64::MAX
            };
            i = i + 1;
        }
        total
    }

    /// Receives one flush in ticket order: applies the ticket's frozen
    /// deletes to every segment published before it, then (for a successful
    /// flush) appends the ticket's segment, which the packet does not touch.
    pub fn publish(
        &mut self,
        segment: Option<FlushedSegment>,
        frozen: &FrozenBufferedUpdates,
        ticket: Ghost<u64>,
    )
        requires
            old(self).wf(),
            match segment {
                Some(seg) => seg.wf(),
                None => true,
            },
        ensures
            final(self).wf(),
            final(self).published_tickets() == old(self).published_tickets().push(ticket@),
            final(self).segments_spec().len() == old(self).segments_spec().len() + (
            if segment is Some {
                1int
            } else {
                0int
            }),
            forall|s: int|
                0 <= s < old(self).segments_spec().len() ==> #[trigger] packet_applied(
                    old(self).segments_spec()[s],
                    final(self).segments_spec()[s],
                    term_entry_views(frozen.terms@),
                ),
            segment matches Some(seg) ==> final(self).segments_spec().last() == seg,
    {
        let n = self.segments.len();
        let mut updated: Vec<FlushedSegment> = Vec::new();
        let ghost olds = self.segments@;
        let mut i: usize = 0;
        while i < n
            invariant
                0 <= i <= n,
                n == olds.len(),
                self.segments@ == olds.skip(i as int),
                self.tickets_published@ == old(self).published_tickets(),
                forall|s: int| 0 <= s < olds.len() ==> (#[trigger] olds[s]).wf(),
                updated@.len() == i as int,
                forall|s: int|
                    0 <= s < i as int ==> (#[trigger] updated@[s]).wf() && packet_applied(
                        olds[s],
                        updated@[s],
                        term_entry_views(frozen.terms@),
                    ),
            decreases n - i,
        {
            proof {
                assert(self.segments@[0] == olds[i as int]);
            }
            let seg = self.segments.remove(0);
            let seg1 = apply_packet_to_segment(seg, frozen);
            updated.push(seg1);
            proof {
                assert(self.segments@ =~= olds.skip(i + 1));
            }
            i = i + 1;
        }
        match segment {
            Some(seg) => {
                updated.push(seg);
            },
            None => (),
        }
        let ghost upd = updated@;
        proof {
            assert forall|k: int| 0 <= k < upd.len() implies (#[trigger] upd[k]).wf() by {
                if k < n as int {
                    assert(updated@[k].wf());
                }
            }
        }
        self.segments = updated;
        proof {
            self.tickets_published@ = self.tickets_published@.push(ticket@);
            assert forall|k: int| 0 <= k < self.segments_spec().len() implies (
            #[trigger] self.segments_spec()[k]).wf() by {
                assert(self.segments_spec()[k] == upd[k]);
                assert(upd[k].wf());
            }
        }
    }
}

/// A live-document total never goes negative.
pub proof fn lemma_live_total_nonneg(segs: Seq<FlushedSegment>, k: int)
    ensures
        PublishedIndex::live_total(segs, k) >= 0,
    decreases k,
{
    if k > 0 {
        lemma_live_total_nonneg(segs, k - 1);
    }
}

/// Applies one frozen packet to one already published segment: a document
/// stays live exactly when it was live and the packet does not kill it.
fn apply_packet_to_segment(seg: FlushedSegment, frozen: &FrozenBufferedUpdates) -> (r:
    FlushedSegment)
    requires
        seg.wf(),
    ensures
        r.wf(),
        packet_applied(seg, r, term_entry_views(frozen.terms@)),
{
    let docs_ref = &seg.docs;
    let live_ref = &seg.live;
    let n = docs_ref.len();
    let ghost expected = Seq::new(
        n as nat,
        |k: int| live_ref@[k] && !doc_deleted_by(docs_ref@[k], term_entry_views(frozen.terms@)),
    );
    let mut new_live: Vec<bool> = Vec::new();
    let mut dead: u32 = 0;
    let mut j: usize = 0;
    proof {
        assert(new_live@ =~= expected.take(0));
    }
    while j < n
        invariant
            0 <= j <= n,
            n == docs_ref@.len(),
            n == live_ref@.len(),
            n <= u32::MAX,
            expected == Seq::new(
                n as nat,
                |k: int| live_ref@[k] && !doc_deleted_by(
                    docs_ref@[k],
                    term_entry_views(frozen.terms@),
                ),
            ),
            new_live@ == expected.take(j as int),
            dead as int == count_dead(new_live@),
            dead as int <= j as int,
        decreases n - j,
    {
        let was_live = live_ref[j];
        let killed = if was_live {
            deleted_by_entries(&docs_ref[j], &frozen.terms)
        } else {
            false
        };
        let now_live = was_live && !killed;
        let ghost pre = new_live@;
        new_live.push(now_live);
        if !now_live {
            dead = dead + 1;
        }
        proof {
            assert(new_live@.drop_last() =~= pre);
            assert(expected[j as int] == (live_ref@[j as int] && !doc_deleted_by(
                docs_ref@[j as int],
                term_entry_views(frozen.terms@),
            )));
            assert(now_live == expected[j as int]);
            assert(new_live@ =~= expected.take(j as int + 1));
        }
        j = j + 1;
    }
    proof {
        assert(new_live@ =~= expected);
    }
    let mut info = seg.info;
    info.del_count = dead;
    let r = FlushedSegment { info, docs: seg.docs, live: new_live };
    proof {
        assert forall|j: int| 0 <= j < seg.live@.len() implies r.live@[j] == (seg.live@[j]
            && !doc_deleted_by(
            #[trigger] seg.docs@[j],
            term_entry_views(frozen.terms@),
        )) by {
            assert(r.live@[j] == expected[j]);
        }
        assert(packet_applied(seg, r, term_entry_views(frozen.terms@)));
    }
    r
}

} // verus!
