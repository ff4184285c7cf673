//! Per-document values: the lookup interfaces the search side consumes, the
//! empty implementations used where a field has no values, the singleton
//! wrappers that present one-valued fields through the multi-valued
//! interfaces, and the bit views that say which documents have a value.
//!
//! Each interface is specified by per-document model functions (what value,
//! ordinal or ordinal list a document has), so the empty sources, the
//! singleton wrappers and the bit views carry exact contracts.

use vstd::prelude::*;

use crate::errors::IndexError;
use crate::DocId;

verus! {

/// Returned by [`SortedSetDocValues::next_ord`] once a document's ordinals
/// are exhausted.
pub const NO_MORE_ORDS: i64 = -1;

/// Byte values addressed by document: a read-only view.
pub trait BinaryDocValues: Sized {
    /// The value of `doc`, empty when it has none.
    spec fn value_at(&self, doc: int) -> Seq<u8>;

    /// The value of `doc_id`, empty when it has none.
    fn get(&mut self, doc_id: DocId) -> (r: Result<Vec<u8>, IndexError>)
        ensures
            *final(self) == *old(self),
            r matches Ok(v) && v@ == old(self).value_at(doc_id as int),
    ;
}

/// Numeric values addressed by document: a read-only view.
pub trait NumericDocValues: Sized {
    /// The value of `doc`, zero when it has none.
    spec fn num_at(&self, doc: int) -> i64;

    /// The value of `doc_id`, zero when it has none.
    fn get(&mut self, doc_id: DocId) -> (r: Result<i64, IndexError>)
        ensures
            *final(self) == *old(self),
            r == Ok::<i64, IndexError>(old(self).num_at(doc_id as int)),
    ;
}

/// Dictionary-ordered byte values addressed by document: a read-only view.
pub trait SortedDocValues: BinaryDocValues {
    /// The ordinal of `doc`'s value, negative when it has none.
    spec fn ord_at(&self, doc: int) -> int;

    /// The value behind an ordinal.
    spec fn ord_value(&self, ord: int) -> Seq<u8>;

    /// How many distinct values the field holds.
    spec fn value_count(&self) -> int;

    /// The ordinal of `doc_id`'s value, negative when it has none.
    fn get_ord(&mut self, doc_id: DocId) -> (r: Result<i32, IndexError>)
        ensures
            *final(self) == *old(self),
            r matches Ok(o) && o as int == old(self).ord_at(doc_id as int),
    ;

    /// The value with the given ordinal.
    fn lookup_ord(&mut self, ord: i32) -> (r: Result<Vec<u8>, IndexError>)
        ensures
            *final(self) == *old(self),
            r matches Ok(v) && v@ == old(self).ord_value(ord as int),
    ;

    /// How many distinct values the field holds.
    fn get_value_count(&self) -> (r: usize)
        ensures
            r as int == self.value_count(),
    ;
}

/// Several numeric values per document, walked with a per-document cursor.
pub trait SortedNumericDocValues: Sized {
    /// Well-formedness of the cursor state.
    spec fn inv(&self) -> bool;

    /// Whether `set_document` has positioned the cursor.
    spec fn positioned(&self) -> bool;

    /// The document the cursor is on.
    spec fn cur_doc(&self) -> int;

    /// How many values `doc` has.
    spec fn count_at(&self, doc: int) -> int;

    /// The `index`-th value of `doc`.
    spec fn nth_value(&self, doc: int, index: int) -> i64;

    /// Positions the cursor on `doc_id`.
    fn set_document(&mut self, doc_id: DocId) -> (r: Result<(), IndexError>)
        requires
            old(self).inv(),
        ensures
            final(self).inv(),
            final(self).positioned(),
            r is Ok,
            final(self).cur_doc() == doc_id as int,
            forall|d: int| final(self).count_at(d) == old(self).count_at(d),
            forall|d: int, i: int| final(self).nth_value(d, i) == old(self).nth_value(d, i),
    ;

    /// How many values the current document has.
    fn count(&self) -> (r: usize)
        requires
            self.inv(),
            self.positioned(),
        ensures
            r as int == self.count_at(self.cur_doc()),
    ;

    /// The `index`-th value of the current document.
    fn value_at(&mut self, index: usize) -> (r: Result<i64, IndexError>)
        requires
            old(self).inv(),
            old(self).positioned(),
        ensures
            *final(self) == *old(self),
            0 <= index < old(self).count_at(old(self).cur_doc()) ==> r == Ok::<i64, IndexError>(
                old(self).nth_value(old(self).cur_doc(), index as int),
            ),
    ;
}

/// Several ordinals per document, walked with a per-document cursor.
pub trait SortedSetDocValues: Sized {
    /// Well-formedness of the cursor state.
    spec fn inv(&self) -> bool;

    /// Whether `set_document` has positioned the cursor.
    spec fn positioned(&self) -> bool;

    /// The document the cursor is on.
    spec fn cur_doc(&self) -> int;

    /// How many of the current document's ordinals were consumed.
    spec fn cur_pos(&self) -> int;

    /// The ordinals of `doc`, in increasing order.
    spec fn ords_at(&self, doc: int) -> Seq<i64>;

    /// The value behind an ordinal.
    spec fn ord_value(&self, ord: int) -> Seq<u8>;

    /// How many distinct values the field holds.
    spec fn value_count(&self) -> int;

    /// Ordinals are never negative; the sentinel marks exhaustion only.
    proof fn ords_facts(&self)
        requires
            self.inv(),
        ensures
            forall|d: int, i: int|
                0 <= i < self.ords_at(d).len() ==> #[trigger] self.ords_at(d)[i] >= 0,
    ;

    /// Positions the cursor on `doc_id`.
    fn set_document(&mut self, doc_id: DocId) -> (r: Result<(), IndexError>)
        requires
            old(self).inv(),
        ensures
            final(self).inv(),
            final(self).positioned(),
            r is Ok,
            final(self).cur_doc() == doc_id as int,
            final(self).cur_pos() == 0,
            forall|d: int| final(self).ords_at(d) == old(self).ords_at(d),
            forall|o: int| final(self).ord_value(o) == old(self).ord_value(o),
            final(self).value_count() == old(self).value_count(),
    ;

    /// The next ordinal of the current document, or `NO_MORE_ORDS`.
    fn next_ord(&mut self) -> (r: Result<i64, IndexError>)
        requires
            old(self).inv(),
            old(self).positioned(),
        ensures
            final(self).inv(),
            final(self).positioned(),
            final(self).cur_doc() == old(self).cur_doc(),
            forall|d: int| final(self).ords_at(d) == old(self).ords_at(d),
            forall|o: int| final(self).ord_value(o) == old(self).ord_value(o),
            final(self).value_count() == old(self).value_count(),
            old(self).cur_pos() < old(self).ords_at(old(self).cur_doc()).len() ==> r == Ok::<
                i64,
                IndexError,
            >(old(self).ords_at(old(self).cur_doc())[old(self).cur_pos()]) && final(self).cur_pos()
                == old(self).cur_pos() + 1,
            old(self).cur_pos() >= old(self).ords_at(old(self).cur_doc()).len() ==> r == Ok::<
                i64,
                IndexError,
            >(NO_MORE_ORDS) && final(self).cur_pos() == old(self).cur_pos(),
    ;

    /// The value with the given ordinal.
    fn lookup_ord(&mut self, ord: i64) -> (r: Result<Vec<u8>, IndexError>)
        requires
            old(self).inv(),
        ensures
            *final(self) == *old(self),
            r matches Ok(v) && v@ == old(self).ord_value(ord as int),
    ;

    /// How many distinct values the field holds.
    fn get_value_count(&self) -> (r: usize)
        requires
            self.inv(),
        ensures
            r as int == self.value_count(),
    ;
}

/// Ordinal random access on top of a sorted set.
pub trait RandomAccessOrds: SortedSetDocValues {
    /// The `index`-th ordinal of the current document.
    fn ord_at(&mut self, index: usize) -> (r: Result<i64, IndexError>)
        requires
            old(self).inv(),
            old(self).positioned(),
        ensures
            *final(self) == *old(self),
            0 <= index < old(self).ords_at(old(self).cur_doc()).len() ==> r == Ok::<
                i64,
                IndexError,
            >(old(self).ords_at(old(self).cur_doc())[index as int]),
    ;

    /// How many ordinals the current document has.
    fn cardinality(&self) -> (r: usize)
        requires
            self.inv(),
            self.positioned(),
        ensures
            r as int == self.ords_at(self.cur_doc()).len(),
    ;
}

/// Binary values where no document has one.
pub struct EmptyBinaryDocValues {
}

impl EmptyBinaryDocValues {
    /// The empty binary source.
    pub fn new() -> (r: EmptyBinaryDocValues)
        ensures
            forall|d: int| r.value_at(d) == Seq::<u8>::empty(),
    {
        EmptyBinaryDocValues {  }
    }
}

impl BinaryDocValues for EmptyBinaryDocValues {
    closed spec fn value_at(&self, doc: int) -> Seq<u8> {
        Seq::empty()
    }

    fn get(&mut self, _doc_id: DocId) -> (r: Result<Vec<u8>, IndexError>) {
        let v: Vec<u8> = Vec::new();
        proof {
            assert(v@ =~= Seq::<u8>::empty());
        }
        Ok(v)
    }
}

/// Sorted values where no document has one.
#[derive(Clone)]
pub struct EmptySortedDocValues {
}

impl EmptySortedDocValues {
    /// The empty sorted source.
    pub fn new() -> (r: EmptySortedDocValues)
        ensures
            forall|d: int| r.ord_at(d) == -1,
            r.value_count() == 0,
    {
        EmptySortedDocValues {  }
    }
}

impl BinaryDocValues for EmptySortedDocValues {
    closed spec fn value_at(&self, doc: int) -> Seq<u8> {
        Seq::empty()
    }

    fn get(&mut self, _doc_id: DocId) -> (r: Result<Vec<u8>, IndexError>) {
        let v: Vec<u8> = Vec::new();
        proof {
            assert(v@ =~= Seq::<u8>::empty());
        }
        Ok(v)
    }
}

impl SortedDocValues for EmptySortedDocValues {
    closed spec fn ord_at(&self, doc: int) -> int {
        -1
    }

    closed spec fn ord_value(&self, ord: int) -> Seq<u8> {
        Seq::empty()
    }

    closed spec fn value_count(&self) -> int {
        0
    }

    fn get_ord(&mut self, _doc_id: DocId) -> (r: Result<i32, IndexError>) {
        Ok(-1)
    }

    fn lookup_ord(&mut self, _ord: i32) -> (r: Result<Vec<u8>, IndexError>) {
        let v: Vec<u8> = Vec::new();
        proof {
            assert(v@ =~= Seq::<u8>::empty());
        }
        Ok(v)
    }

    fn get_value_count(&self) -> (r: usize) {
        0
    }
}

/// Numeric values where every document reads as zero.
pub struct EmptyNumericDocValues {
}

impl NumericDocValues for EmptyNumericDocValues {
    closed spec fn num_at(&self, doc: int) -> i64 {
        0
    }

    fn get(&mut self, _doc_id: DocId) -> (r: Result<i64, IndexError>) {
        Ok(0)
    }
}

/// Presents a one-valued numeric field through the multi-valued interface:
/// a document has one value when its bit is set, none otherwise.
pub struct SingletonSortedNumericDocValues<N: NumericDocValues, B: crate::bits::Bits> {
    values: N,
    docs_with_field: B,
    current_doc: DocId,
    current_value: i64,
    current_count: usize,
    is_positioned: bool,
}

impl<N: NumericDocValues, B: crate::bits::Bits> SingletonSortedNumericDocValues<N, B> {
    /// Wraps a numeric source and the bits saying which documents have a
    /// value.
    pub fn new(values: N, docs_with_field: B) -> (r: SingletonSortedNumericDocValues<N, B>)
        ensures
            r.inv(),
            !r.positioned(),
            forall|d: int| #[trigger] r.count_at(d) == if d >= 0 && docs_with_field.bit(d) {
                1int
            } else {
                0int
            },
            forall|d: int, i: int| #[trigger] r.nth_value(d, i) == values.num_at(d),
    {
        SingletonSortedNumericDocValues {
            values,
            docs_with_field,
            current_doc: 0,
            current_value: 0,
            current_count: 0,
            is_positioned: false,
        }
    }
}

impl<N: NumericDocValues, B: crate::bits::Bits> SortedNumericDocValues for SingletonSortedNumericDocValues<
    N,
    B,
> {
    closed spec fn inv(&self) -> bool {
        self.is_positioned ==> {
            &&& self.current_count as int == self.count_at(self.current_doc as int)
            &&& (self.current_count == 1 ==> self.current_value == self.values.num_at(
                self.current_doc as int,
            ))
        }
    }

    closed spec fn positioned(&self) -> bool {
        self.is_positioned
    }

    closed spec fn cur_doc(&self) -> int {
        self.current_doc as int
    }

    closed spec fn count_at(&self, doc: int) -> int {
        if doc >= 0 && self.docs_with_field.bit(doc) {
            1
        } else {
            0
        }
    }

    closed spec fn nth_value(&self, doc: int, index: int) -> i64 {
        self.values.num_at(doc)
    }

    fn set_document(&mut self, doc_id: DocId) -> (r: Result<(), IndexError>) {
        self.current_doc = doc_id;
        self.is_positioned = true;
        if doc_id < 0 {
            self.current_count = 0;
            return Ok(());
        }
        let present = match self.docs_with_field.get(doc_id as usize) {
            Ok(b) => b,
            Err(e) => {
                proof {
                    assert(false);
                }
                return Err(e);
            },
        };
        if present {
            self.current_value = match self.values.get(doc_id) {
                Ok(v) => v,
                Err(e) => {
                    proof {
                        assert(false);
                    }
                    return Err(e);
                },
            };
            self.current_count = 1;
        } else {
            self.current_count = 0;
        }
        Ok(())
    }

    fn count(&self) -> (r: usize) {
        self.current_count
    }

    fn value_at(&mut self, _index: usize) -> (r: Result<i64, IndexError>) {
        Ok(self.current_value)
    }
}

/// Presents a one-valued sorted field through the sorted-set interface: a
/// document has one ordinal when its sorted source gives it one.
pub struct SingletonSortedSetDocValues<S: SortedDocValues> {
    values: S,
    current_doc: DocId,
    current_ord: i64,
    consumed: bool,
    is_positioned: bool,
}

impl<S: SortedDocValues> SingletonSortedSetDocValues<S> {
    /// Wraps a sorted source.
    pub fn new(values: S) -> (r: SingletonSortedSetDocValues<S>)
        ensures
            r.inv(),
            !r.positioned(),
            forall|d: int| #[trigger] r.ords_at(d) == if 0 <= values.ord_at(d) <= 0x7FFF_FFFF {
                seq![values.ord_at(d) as i64]
            } else {
                Seq::<i64>::empty()
            },
            r.value_count() == values.value_count(),
    {
        SingletonSortedSetDocValues {
            values,
            current_doc: 0,
            current_ord: NO_MORE_ORDS,
            consumed: true,
            is_positioned: false,
        }
    }
}

impl<S: SortedDocValues> SortedSetDocValues for SingletonSortedSetDocValues<S> {
    closed spec fn inv(&self) -> bool {
        self.is_positioned ==> {
            &&& (!self.consumed ==> self.ords_at(self.current_doc as int).len() == 1
                && self.current_ord == self.ords_at(self.current_doc as int)[0])
            &&& (self.consumed && self.current_ord == NO_MORE_ORDS ==> self.ords_at(
                self.current_doc as int,
            ).len() == 0)
            &&& (self.consumed && self.current_ord != NO_MORE_ORDS ==> self.ords_at(
                self.current_doc as int,
            ).len() == 1 && self.current_ord == self.ords_at(self.current_doc as int)[0])
        }
    }

    closed spec fn positioned(&self) -> bool {
        self.is_positioned
    }

    closed spec fn cur_doc(&self) -> int {
        self.current_doc as int
    }

    closed spec fn cur_pos(&self) -> int {
        if self.consumed {
            self.ords_at(self.current_doc as int).len() as int
        } else {
            0
        }
    }

    closed spec fn ords_at(&self, doc: int) -> Seq<i64> {
        if 0 <= self.values.ord_at(doc) <= 0x7FFF_FFFF {
            seq![self.values.ord_at(doc) as i64]
        } else {
            Seq::empty()
        }
    }

    closed spec fn ord_value(&self, ord: int) -> Seq<u8> {
        if 0 <= ord <= 0x7FFF_FFFF {
            self.values.ord_value(ord)
        } else {
            Seq::empty()
        }
    }

    closed spec fn value_count(&self) -> int {
        self.values.value_count()
    }

    proof fn ords_facts(&self) {
    }

    fn set_document(&mut self, doc_id: DocId) -> (r: Result<(), IndexError>) {
        self.current_doc = doc_id;
        self.is_positioned = true;
        let ord = match self.values.get_ord(doc_id) {
            Ok(o) => o,
            Err(e) => {
                proof {
                    assert(false);
                }
                return Err(e);
            },
        };
        if ord < 0 {
            self.current_ord = NO_MORE_ORDS;
            self.consumed = true;
            proof {
                assert(self.ords_at(doc_id as int).len() == 0);
            }
        } else {
            self.current_ord = ord as i64;
            self.consumed = false;
        }
        Ok(())
    }

    fn next_ord(&mut self) -> (r: Result<i64, IndexError>) {
        if self.consumed {
            Ok(NO_MORE_ORDS)
        } else {
            self.consumed = true;
            Ok(self.current_ord)
        }
    }

    fn lookup_ord(&mut self, ord: i64) -> (r: Result<Vec<u8>, IndexError>) {
        if ord < 0 || ord > 0x7FFF_FFFFi64 {
            let v: Vec<u8> = Vec::new();
            proof {
                assert(v@ =~= Seq::<u8>::empty());
            }
            Ok(v)
        } else {
            self.values.lookup_ord(ord as i32)
        }
    }

    fn get_value_count(&self) -> (r: usize) {
        self.values.get_value_count()
    }
}

impl<S: SortedDocValues> RandomAccessOrds for SingletonSortedSetDocValues<S> {
    fn ord_at(&mut self, _index: usize) -> (r: Result<i64, IndexError>) {
        Ok(self.current_ord)
    }

    fn cardinality(&self) -> (r: usize) {
        if self.consumed && self.current_ord == NO_MORE_ORDS {
            0
        } else {
            1
        }
    }
}

/// One bit per document of a sorted field: set when the document has a
/// value (a non-negative ordinal).
pub struct SortedDocValuesBits<S: SortedDocValues> {
    /// The wrapped source.
    pub values: S,
    /// The number of documents covered.
    pub max_doc: DocId,
}

impl<S: SortedDocValues> SortedDocValuesBits<S> {
    /// Whether `index`'s document has a value.
    pub fn get(&mut self, index: usize) -> (r: Result<bool, IndexError>)
        ensures
            *final(self) == *old(self),
            index <= 0x7FFF_FFFE ==> r == Ok::<bool, IndexError>(
                old(self).values.ord_at(index as int) >= 0,
            ),
    {
        if index > 0x7FFF_FFFEusize {
            return Ok(false);
        }
        let ord = match self.values.get_ord(index as DocId) {
            Ok(o) => o,
            Err(e) => {
                proof {
                    assert(false);
                }
                return Err(e);
            },
        };
        Ok(ord >= 0)
    }

    /// The number of documents covered.
    pub fn len(&self) -> (r: usize)
        requires
            self.max_doc >= 0,
        ensures
            r == self.max_doc,
    {
        self.max_doc as usize
    }
}

/// One bit per document of a sorted-set field.
pub struct SortedSetDocValuesBits<S: SortedSetDocValues> {
    /// The wrapped source.
    pub values: S,
    /// The number of documents covered.
    pub max_doc: DocId,
}

impl<S: SortedSetDocValues> SortedSetDocValuesBits<S> {
    /// Whether `index`'s document has any ordinal.
    pub fn get(&mut self, index: usize) -> (r: Result<bool, IndexError>)
        requires
            old(self).values.inv(),
        ensures
            final(self).values.inv(),
            final(self).max_doc == old(self).max_doc,
            forall|d: int| final(self).values.ords_at(d) == old(self).values.ords_at(d),
            index <= 0x7FFF_FFFE ==> r == Ok::<bool, IndexError>(
                old(self).values.ords_at(index as int).len() > 0,
            ),
    {
        if index > 0x7FFF_FFFEusize {
            return Ok(false);
        }
        match self.values.set_document(index as DocId) {
            Ok(()) => (),
            Err(e) => {
                proof {
                    assert(false);
                }
                return Err(e);
            },
        }
        proof {
            self.values.ords_facts();
        }
        let ord = match self.values.next_ord() {
            Ok(o) => o,
            Err(e) => {
                proof {
                    assert(false);
                }
                return Err(e);
            },
        };
        Ok(ord != NO_MORE_ORDS)
    }

    /// The number of documents covered.
    pub fn len(&self) -> (r: usize)
        requires
            self.max_doc >= 0,
        ensures
            r == self.max_doc,
    {
        self.max_doc as usize
    }
}

/// One bit per document of a multi-valued numeric field.
pub struct SortedNumericDocValuesBits<S: SortedNumericDocValues> {
    /// The wrapped source.
    pub values: S,
    /// The number of documents covered.
    pub max_doc: DocId,
}

impl<S: SortedNumericDocValues> SortedNumericDocValuesBits<S> {
    /// Whether `index`'s document has any value.
    pub fn get(&mut self, index: usize) -> (r: Result<bool, IndexError>)
        requires
            old(self).values.inv(),
        ensures
            final(self).values.inv(),
            final(self).max_doc == old(self).max_doc,
            forall|d: int| final(self).values.count_at(d) == old(self).values.count_at(d),
            index <= 0x7FFF_FFFE ==> r == Ok::<bool, IndexError>(
                old(self).values.count_at(index as int) > 0,
            ),
    {
        if index > 0x7FFF_FFFEusize {
            return Ok(false);
        }
        match self.values.set_document(index as DocId) {
            Ok(()) => (),
            Err(e) => {
                proof {
                    assert(false);
                }
                return Err(e);
            },
        }
        Ok(self.values.count() != 0)
    }

    /// The number of documents covered.
    pub fn len(&self) -> (r: usize)
        requires
            self.max_doc >= 0,
        ensures
            r == self.max_doc,
    {
        self.max_doc as usize
    }
}

/// The per-document-values factory: empty sources, singleton wrappers, and
/// the bit views over them.
pub struct DocValues {
}

impl DocValues {
    /// An empty binary source.
    pub fn empty_binary() -> (r: EmptyBinaryDocValues)
        ensures
            forall|d: int| r.value_at(d) == Seq::<u8>::empty(),
    {
        EmptyBinaryDocValues::new()
    }

    /// An empty numeric source.
    pub fn empty_numeric() -> (r: EmptyNumericDocValues)
        ensures
            forall|d: int| r.num_at(d) == 0,
    {
        EmptyNumericDocValues {  }
    }

    /// An empty sorted source.
    pub fn empty_sorted() -> (r: EmptySortedDocValues)
        ensures
            forall|d: int| r.ord_at(d) == -1,
            forall|d: int| r.value_at(d) == Seq::<u8>::empty(),
            forall|o: int| r.ord_value(o) == Seq::<u8>::empty(),
            r.value_count() == 0,
    {
        EmptySortedDocValues::new()
    }

    /// An empty multi-valued numeric source: zero values for every document.
    pub fn empty_sorted_numeric(max_doc: usize) -> (r: SingletonSortedNumericDocValues<
        EmptyNumericDocValues,
        crate::bits::MatchNoBits,
    >)
        ensures
            r.inv(),
            forall|d: int| r.count_at(d) == 0,
    {
        let dv = DocValues::empty_numeric();
        let docs_with_field = crate::bits::MatchNoBits::new(max_doc);
        SingletonSortedNumericDocValues::new(dv, docs_with_field)
    }

    /// An empty sorted-set source.
    pub fn empty_sorted_set() -> (r: SingletonSortedSetDocValues<EmptySortedDocValues>)
        ensures
            r.inv(),
            forall|d: int| r.ords_at(d).len() == 0,
            r.value_count() == 0,
    {
        SingletonSortedSetDocValues::new(DocValues::empty_sorted())
    }

    /// Presents a one-valued sorted field as a sorted set.
    pub fn singleton_sorted_doc_values<S: SortedDocValues>(dv: S) -> (r:
        SingletonSortedSetDocValues<S>)
        ensures
            r.inv(),
            forall|d: int| #[trigger] r.ords_at(d) == if 0 <= dv.ord_at(d) <= 0x7FFF_FFFF {
                seq![dv.ord_at(d) as i64]
            } else {
                Seq::<i64>::empty()
            },
            r.value_count() == dv.value_count(),
    {
        SingletonSortedSetDocValues::new(dv)
    }

    /// Presents a one-valued numeric field as a multi-valued one.
    pub fn singleton_sorted_numeric_doc_values<N: NumericDocValues, B: crate::bits::Bits>(
        numeric_doc_values_in: N,
        docs_with_field: B,
    ) -> (r: SingletonSortedNumericDocValues<N, B>)
        ensures
            r.inv(),
            forall|d: int| #[trigger] r.count_at(d) == if d >= 0 && docs_with_field.bit(d) {
                1int
            } else {
                0int
            },
            forall|d: int, i: int| #[trigger] r.nth_value(d, i) == numeric_doc_values_in.num_at(d),
    {
        SingletonSortedNumericDocValues::new(numeric_doc_values_in, docs_with_field)
    }

    /// The has-value bits of a sorted field.
    pub fn docs_with_value_sorted<S: SortedDocValues>(dv: S, max_doc: DocId) -> (r:
        SortedDocValuesBits<S>)
        ensures
            r.values == dv,
            r.max_doc == max_doc,
    {
        SortedDocValuesBits { values: dv, max_doc }
    }

    /// The has-value bits of a sorted-set field.
    pub fn docs_with_value_sorted_set<S: SortedSetDocValues>(dv: S, max_doc: DocId) -> (r:
        SortedSetDocValuesBits<S>)
        ensures
            r.values == dv,
            r.max_doc == max_doc,
    {
        SortedSetDocValuesBits { values: dv, max_doc }
    }

    /// The has-value bits of a multi-valued numeric field.
    pub fn docs_with_value_sorted_numeric<S: SortedNumericDocValues>(dv: S, max_doc: DocId) -> (r:
        SortedNumericDocValuesBits<S>)
        ensures
            r.values == dv,
            r.max_doc == max_doc,
    {
        SortedNumericDocValuesBits { values: dv, max_doc }
    }
}

} // verus!
