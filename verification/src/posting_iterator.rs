//! Posting iteration: the flags by which a consumer asks for per-document
//! detail, the cursor interface, and the cursor of a term that has no
//! postings.

use crate::error::Error;
use vstd::prelude::*;

verus! {

/// The id of a document.
pub type DocId = i32;

/// The id that a document cursor reports once it has no more documents.
pub const NO_MORE_DOCS: DocId = 0x7fff_ffff;

/// The bytes attached to one position of a term.
pub type Payload = Vec<u8>;

/// The flags by which a consumer says what detail it needs. A higher
/// capability holds every bit of the ones below it.
pub struct PostingIteratorFlags;

/// Whether `flags` holds every bit of `feature`.
pub open spec fn requested(flags: u16, feature: u16) -> bool {
    (flags & feature) == feature
}

impl PostingIteratorFlags {
    /// No per-document detail is needed.
    pub const NONE: u16 = 0;

    /// Term frequencies are needed.
    pub const FREQS: u16 = 1 << 3;

    /// Positions are needed, and with them frequencies.
    pub const POSITIONS: u16 = Self::FREQS | 1 << 4;

    /// Offsets are needed, and with them positions.
    pub const OFFSETS: u16 = Self::POSITIONS | 1 << 5;

    /// Payloads are needed, and with them positions.
    pub const PAYLOADS: u16 = Self::POSITIONS | 1 << 6;

    /// Positions, offsets and payloads are needed.
    pub const ALL: u16 = Self::OFFSETS | Self::PAYLOADS;

    /// Whether a request of `flags` asks for `feature`.
    pub fn feature_requested(flags: u16, feature: u16) -> (r: bool)
        ensures
            r == requested(flags, feature),
    {
        (flags & feature) == feature
    }
}

/// A forward cursor over increasing document ids.
pub trait DocIterator {
    /// The current document: -1 before the first advance, `NO_MORE_DOCS`
    /// after the last.
    fn doc_id(&self) -> DocId;

    /// Moves to the next document and returns it.
    fn next(&mut self) -> Result<DocId, Error>;

    /// Moves to the first document at or beyond `target` and returns it.
    fn advance(&mut self, target: DocId) -> Result<DocId, Error>;

    /// An estimate of how many documents the cursor will visit.
    fn cost(&self) -> usize;
}

/// A document cursor that also gives the detail of the term in the current
/// document, as far as it was asked for.
pub trait PostingIterator: DocIterator {
    /// The term's frequency in the current document. Undefined where
    /// frequencies were not requested.
    fn freq(&self) -> Result<i32, Error>;

    /// The next position in the current document, or -1 where positions are
    /// exhausted or were not indexed.
    fn next_position(&mut self) -> Result<i32, Error>;

    /// The start offset of the current position, or -1 where there is none.
    fn start_offset(&self) -> Result<i32, Error>;

    /// The end offset of the current position, or -1 where there is none.
    fn end_offset(&self) -> Result<i32, Error>;

    /// The payload at the current position, empty where there is none.
    fn payload(&self) -> Result<Payload, Error>;
}

/// The cursor of a term that does not exist: it has no documents and holds
/// nothing but the id it last reported.
#[derive(Clone)]
pub struct EmptyPostingIterator {
    doc_id: DocId,
}

impl EmptyPostingIterator {
    /// The id that the cursor last reported.
    pub closed spec fn current(&self) -> DocId {
        self.doc_id
    }
}

impl Default for EmptyPostingIterator {
    fn default() -> (r: Self)
        ensures
            r.current() == -1,
    {
        EmptyPostingIterator { doc_id: -1 }
    }
}

impl DocIterator for EmptyPostingIterator {
    fn doc_id(&self) -> (r: DocId)
        ensures
            r == self.current(),
    {
        self.doc_id
    }

    fn next(&mut self) -> (r: Result<DocId, Error>)
        ensures
            r == Ok::<DocId, Error>(NO_MORE_DOCS),
            final(self).current() == NO_MORE_DOCS,
    {
        self.doc_id = NO_MORE_DOCS;
        Ok(NO_MORE_DOCS)
    }

    fn advance(&mut self, _target: DocId) -> (r: Result<DocId, Error>)
        ensures
            r == Ok::<DocId, Error>(NO_MORE_DOCS),
            final(self).current() == NO_MORE_DOCS,
    {
        self.doc_id = NO_MORE_DOCS;
        Ok(NO_MORE_DOCS)
    }

    fn cost(&self) -> (r: usize)
        ensures
            r == 0,
    {
        0usize
    }
}

impl PostingIterator for EmptyPostingIterator {
    fn freq(&self) -> (r: Result<i32, Error>)
        ensures
            r == Ok::<i32, Error>(0i32),
    {
        Ok(0)
    }

    fn next_position(&mut self) -> (r: Result<i32, Error>)
        ensures
            r == Ok::<i32, Error>(-1i32),
            *final(self) == *old(self),
    {
        Ok(-1)
    }

    fn start_offset(&self) -> (r: Result<i32, Error>)
        ensures
            r == Ok::<i32, Error>(-1i32),
    {
        Ok(-1)
    }

    fn end_offset(&self) -> (r: Result<i32, Error>)
        ensures
            r == Ok::<i32, Error>(-1i32),
    {
        Ok(-1)
    }

    fn payload(&self) -> (r: Result<Payload, Error>)
        ensures
            r is Ok,
            r->Ok_0@ == Seq::<u8>::empty(),
    {
        Ok(Payload::new())
    }
}

/// A request that asks for positions asks for frequencies; one that asks
/// for offsets or for payloads asks for positions; and one that asks for
/// both offsets and payloads asks for everything.
pub proof fn lemma_capabilities_nest(flags: u16)
    ensures
        requested(flags, PostingIteratorFlags::NONE),
        requested(flags, PostingIteratorFlags::POSITIONS) ==> requested(
            flags,
            PostingIteratorFlags::FREQS,
        ),
        requested(flags, PostingIteratorFlags::OFFSETS) ==> requested(
            flags,
            PostingIteratorFlags::POSITIONS,
        ),
        requested(flags, PostingIteratorFlags::PAYLOADS) ==> requested(
            flags,
            PostingIteratorFlags::POSITIONS,
        ),
        requested(flags, PostingIteratorFlags::OFFSETS) && requested(
            flags,
            PostingIteratorFlags::PAYLOADS,
        ) <==> requested(flags, PostingIteratorFlags::ALL),
{
    assert((1u16 << 3u16) == 8 && (8u16 | (1u16 << 4u16)) == 24 && (24u16 | (1u16 << 5u16)) == 56
        && (24u16 | (1u16 << 6u16)) == 88 && (56u16 | 88u16) == 120) by (bit_vector);
    assert((flags & 0) == 0) by (bit_vector);
    assert((flags & 24) == 24 ==> (flags & 8) == 8) by (bit_vector);
    assert((flags & 56) == 56 ==> (flags & 24) == 24) by (bit_vector);
    assert((flags & 88) == 88 ==> (flags & 24) == 24) by (bit_vector);
    assert(((flags & 56) == 56 && (flags & 88) == 88) <==> (flags & 120) == 120) by (bit_vector);
}

/// Composing two requests with OR asks for whatever either asked for.
pub proof fn lemma_or_composes(a: u16, b: u16, feature: u16)
    ensures
        requested(a, feature) || requested(b, feature) ==> requested(a | b, feature),
{
    assert(((a & feature) == feature || (b & feature) == feature) ==> ((a | b) & feature)
        == feature) by (bit_vector);
}

} // verus!
