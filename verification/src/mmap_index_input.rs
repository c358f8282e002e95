//! Shared, independently sliceable byte views over one read-only mapping, and
//! a read cursor over such a view.

use crate::error::Error;
use memmap::Mmap;
use std::ops::Deref;
use std::sync::Arc;
use vstd::prelude::*;
use vstd::slice::slice_subrange;

verus! {

/// A read-only memory mapping of the `memmap` crate. Its bytes are reached
/// only through [`mapped_slice`].
#[verifier::external_type_specification]
#[verifier::external_body]
pub struct ExMmap(memmap::Mmap);

/// The bytes that a mapping holds. The library never writes to a mapping,
/// and takes the file behind it to stay as it is while the mapping lives.
pub uninterp spec fn mapped_bytes(map: Mmap) -> Seq<u8>;

/// `Deref::deref` of `memmap::Mmap`: the mapped bytes as one slice, without
/// copying them.
#[verifier::external_body]
fn mapped_slice(map: &Mmap) -> (out: &[u8])
    ensures
        out@ == mapped_bytes(*map),
{
    map.deref()
}

/// `Arc::clone`: one more handle to the same mapping.
#[verifier::external_body]
fn share_mapping(map: &Arc<Mmap>) -> (out: Arc<Mmap>)
    ensures
        out == *map,
{
    Arc::clone(map)
}

/// A view `(mapping, offset, len)` over a shared mapping. Slicing makes a new
/// view over the same mapping and copies nothing; every view keeps the whole
/// mapping alive.
pub struct ReadOnlySource {
    map: Arc<Mmap>,
    offset: u64,
    len: u64,
}

impl View for ReadOnlySource {
    type V = Seq<u8>;

    /// The bytes that the view covers.
    closed spec fn view(&self) -> Seq<u8> {
        mapped_bytes(*self.map).subrange(self.offset as int, self.offset + self.len)
    }
}

impl ReadOnlySource {
    #[verifier::type_invariant]
    spec fn inv(&self) -> bool {
        self.offset + self.len <= mapped_bytes(*self.map).len()
    }

    /// All bytes of the mapping behind the view.
    pub closed spec fn region(&self) -> Seq<u8> {
        mapped_bytes(*self.map)
    }

    /// Where in the mapping the view starts.
    pub closed spec fn start(&self) -> nat {
        self.offset as nat
    }

    /// The number of bytes in the view.
    pub fn len(&self) -> (n: u64)
        ensures
            n == self@.len(),
    {
        proof {
            use_type_invariant(self);
        }
        self.len
    }

    /// The bytes of the view as a slice into the mapping.
    pub fn as_slice(&self) -> (out: &[u8])
        ensures
            out@ == self@,
    {
        proof {
            use_type_invariant(self);
        }
        let all = mapped_slice(&self.map);
        let total = all.len();
        assert(self.offset + self.len <= total);
        slice_subrange(all, self.offset as usize, (self.offset + self.len) as usize)
    }

    /// The sub-view of `len` bytes that starts `offset` bytes into this one.
    /// Fails with `IllegalArgument` exactly when `offset + len` exceeds the
    /// length of this view.
    pub fn range(&self, offset: u64, len: u64) -> (r: Result<ReadOnlySource, Error>)
        ensures
            offset + len <= self@.len() ==> r is Ok && r->Ok_0@.len() == len && r->Ok_0@
                == self@.subrange(offset as int, offset + len) && r->Ok_0.region() == self.region() && r->Ok_0.start() == self.start() + offset,
            offset + len > self@.len() ==> r is Err && r->Err_0 == Error::IllegalArgument,
    {
        proof {
            use_type_invariant(self);
        }
        if offset > self.len || len > self.len - offset {
            return Err(Error::IllegalArgument);
        }
        let total = mapped_slice(&self.map).len();
        assert(self.offset + self.len <= total);
        let source = ReadOnlySource {
            map: share_mapping(&self.map),
            offset: self.offset + offset,
            len,
        };
        assert(source@ =~= self@.subrange(offset as int, offset + len));
        Ok(source)
    }

    /// The sub-view from `from_offset` up to, not including, `to_offset`.
    /// Fails with `IllegalArgument` exactly when `from_offset > to_offset` or
    /// `to_offset` exceeds the length of this view.
    pub fn slice(&self, from_offset: u64, to_offset: u64) -> (r: Result<ReadOnlySource, Error>)
        ensures
            from_offset <= to_offset <= self@.len() ==> r is Ok && r->Ok_0@ == self@.subrange(
                from_offset as int,
                to_offset as int,
            ) && r->Ok_0.region() == self.region() && r->Ok_0.start() == self.start()
                + from_offset,
            !(from_offset <= to_offset <= self@.len()) ==> r is Err && r->Err_0
                == Error::IllegalArgument,
    {
        if from_offset > to_offset {
            return Err(Error::IllegalArgument);
        }
        self.range(from_offset, to_offset - from_offset)
    }

    /// The sub-view from `from_offset` to the end.
    pub fn slice_from(&self, from_offset: u64) -> (r: Result<ReadOnlySource, Error>)
        ensures
            from_offset <= self@.len() ==> r is Ok && r->Ok_0@ == self@.skip(from_offset as int)
                && r->Ok_0.region() == self.region() && r->Ok_0.start() == self.start()
                + from_offset,
            from_offset > self@.len() ==> r is Err && r->Err_0 == Error::IllegalArgument,
    {
        let len = self.len();
        self.slice(from_offset, len)
    }

    /// The sub-view of the first `to_offset` bytes.
    pub fn slice_to(&self, to_offset: u64) -> (r: Result<ReadOnlySource, Error>)
        ensures
            to_offset <= self@.len() ==> r is Ok && r->Ok_0@ == self@.take(to_offset as int)
                && r->Ok_0.region() == self.region() && r->Ok_0.start() == self.start(),
            to_offset > self@.len() ==> r is Err && r->Err_0 == Error::IllegalArgument,
    {
        self.slice(0, to_offset)
    }

    /// Splits the view in two at `addr`: the first `addr` bytes, and the
    /// rest. The two halves, put together again, are the bytes of this view.
    pub fn split(self, addr: u64) -> (r: Result<(ReadOnlySource, ReadOnlySource), Error>)
        ensures
            addr <= self@.len() ==> r is Ok && r->Ok_0.0@ == self@.take(addr as int) && r->Ok_0.1@
                == self@.skip(addr as int) && r->Ok_0.0@ + r->Ok_0.1@ == self@,
            addr <= self@.len() ==> r->Ok_0.0.region() == self.region() && r->Ok_0.1.region()
                == self.region() && r->Ok_0.0.start() == self.start() && r->Ok_0.1.start()
                == self.start() + addr,
            addr > self@.len() ==> r is Err && r->Err_0 == Error::IllegalArgument,
    {
        let left = match self.slice(0, addr) {
            Ok(left) => left,
            Err(e) => {
                return Err(e);
            },
        };
        let right = match self.slice_from(addr) {
            Ok(right) => right,
            Err(e) => {
                return Err(e);
            },
        };
        assert(left@ + right@ =~= self@);
        Ok((left, right))
    }
}

impl From<Arc<Mmap>> for ReadOnlySource {
    /// A view over the whole of `mmap`.
    fn from(mmap: Arc<Mmap>) -> (r: ReadOnlySource)
        ensures
            r@ == mapped_bytes(*mmap),
            r.region() == mapped_bytes(*mmap),
            r.start() == 0,
    {
        let len = mapped_slice(&mmap).len() as u64;
        let r = ReadOnlySource { map: mmap, offset: 0, len };
        assert(r@ =~= mapped_bytes(*mmap));
        r
    }
}

impl vstd::std_specs::convert::FromSpecImpl<Arc<Mmap>> for ReadOnlySource {
    open spec fn obeys_from_spec() -> bool {
        true
    }

    closed spec fn from_spec(mmap: Arc<Mmap>) -> ReadOnlySource {
        ReadOnlySource { map: mmap, offset: 0, len: mapped_bytes(*mmap).len() as u64 }
    }
}

impl Clone for ReadOnlySource {
    /// One more view of the same bytes.
    fn clone(&self) -> (r: Self)
        ensures
            r@ == self@,
            r.region() == self.region(),
            r.start() == self.start(),
    {
        proof {
            use_type_invariant(self);
        }
        ReadOnlySource { map: share_mapping(&self.map), offset: self.offset, len: self.len }
    }
}

/// The big-endian value of the two bytes of `s` at `p`.
pub open spec fn be16(s: Seq<u8>, p: int) -> int {
    s[p] * 0x100 + s[p + 1]
}

/// The big-endian value of the four bytes of `s` at `p`.
pub open spec fn be32(s: Seq<u8>, p: int) -> int {
    be16(s, p) * 0x1_0000 + be16(s, p + 2)
}

/// The big-endian value of the eight bytes of `s` at `p`.
pub open spec fn be64(s: Seq<u8>, p: int) -> int {
    be32(s, p) * 0x1_0000_0000 + be32(s, p + 4)
}

/// The signed 16-bit integer with the same bits as the low 16 bits of `v`.
pub open spec fn signed16(v: int) -> i16 {
    #[verifier::truncate]
    ((#[verifier::truncate]
    (v as u16)) as i16)
}

/// The signed 32-bit integer with the same bits as the low 32 bits of `v`.
pub open spec fn signed32(v: int) -> i32 {
    #[verifier::truncate]
    ((#[verifier::truncate]
    (v as u32)) as i32)
}

/// The signed 64-bit integer with the same bits as the low 64 bits of `v`.
pub open spec fn signed64(v: int) -> i64 {
    #[verifier::truncate]
    ((#[verifier::truncate]
    (v as u64)) as i64)
}

/// Whether `length` bytes from `offset` lie in a window of `len` bytes:
/// neither is negative, and their sum, taken without a limit, is at most
/// `len`.
pub open spec fn window_fits(len: nat, offset: int, length: int) -> bool {
    0 <= offset && 0 <= length && offset + length <= len
}

/// A read cursor over a window of a shared view. Sequential reads advance
/// the position; reads at an absolute offset leave it alone.
pub struct MmapIndexInput {
    source: ReadOnlySource,
    start: u64,
    end: u64,
    position: u64,
    description: String,
}

impl View for MmapIndexInput {
    type V = Seq<u8>;

    /// The bytes of the window, from its first to its last.
    closed spec fn view(&self) -> Seq<u8> {
        self.source@.subrange(self.start as int, self.end as int)
    }
}

impl MmapIndexInput {
    #[verifier::type_invariant]
    spec fn inv(&self) -> bool {
        &&& self.start <= self.end <= self.source@.len()
        &&& self.source@.len() <= u64::MAX
        &&& self.position <= self.end - self.start
    }

    /// How many bytes of the window lie before the cursor.
    pub closed spec fn position(&self) -> nat {
        self.position as nat
    }


    /// The label that the cursor was made with.
    pub closed spec fn description(&self) -> Seq<char> {
        self.description@
    }

    /// All bytes of the mapping behind the cursor.
    pub closed spec fn region(&self) -> Seq<u8> {
        self.source.region()
    }

    /// Decides what part of a file of `file_len` bytes to map when asked for
    /// `length` bytes from `offset`, where a `length` of 0 stands for all
    /// that follows `offset`. An empty file gives `None`; a request that
    /// reaches beyond the file fails with `IllegalArgument`.
    pub fn mapped_length(file_len: usize, offset: usize, length: usize) -> (r: Result<
        Option<usize>,
        Error,
    >)
        ensures
            file_len == 0 ==> r == Ok::<Option<usize>, Error>(None),
            file_len > 0 && offset + length > file_len ==> r is Err && r->Err_0
                == Error::IllegalArgument,
            file_len > 0 && offset + length <= file_len && length == 0 ==> r == Ok::<
                Option<usize>,
                Error,
            >(Some((file_len - offset) as usize)),
            file_len > 0 && offset + length <= file_len && length > 0 ==> r == Ok::<
                Option<usize>,
                Error,
            >(Some(length)),
    {
        if file_len == 0 {
            Ok(None)
        } else if offset > file_len || length > file_len - offset {
            Err(Error::IllegalArgument)
        } else if length == 0 {
            Ok(Some(file_len - offset))
        } else {
            Ok(Some(length))
        }
    }

    /// A cursor over a mapping that must not be empty: `None`, which stands
    /// for the mapping of an empty file, fails with `IllegalState`.
    pub fn from_mapping(mapping: Option<Arc<Mmap>>) -> (r: Result<MmapIndexInput, Error>)
        ensures
            mapping is Some ==> r is Ok && r->Ok_0@ == mapped_bytes(*mapping->Some_0)
                && r->Ok_0.region() == mapped_bytes(*mapping->Some_0) && r->Ok_0.position() == 0,
            mapping is None ==> r is Err && r->Err_0 == Error::IllegalState,
    {
        match mapping {
            Some(map) => Ok(MmapIndexInput::from_source(ReadOnlySource::from(map))),
            None => Err(Error::IllegalState),
        }
    }

    /// A cursor at position 0 over all of `source`.
    pub fn from_source(source: ReadOnlySource) -> (r: MmapIndexInput)
        ensures
            r@ == source@,
            r.region() == source.region(),
            r.position() == 0,
            r.description() == Seq::<char>::empty(),
    {
        let len = source.len();
        let r = MmapIndexInput {
            source,
            start: 0,
            end: len,
            position: 0,
            description: String::new(),
        };
        assert(r@ =~= source@);
        r
    }

    fn slice_impl(&self, description: &str, offset: i64, length: i64) -> (r: Result<Self, Error>)
        ensures
            window_fits(self@.len(), offset as int, length as int) ==> r is Ok && r->Ok_0@
                == self@.subrange(offset as int, offset + length) && r->Ok_0.position() == 0
                && r->Ok_0.description() == description@ && r->Ok_0.region() == self.region(),
            !window_fits(self@.len(), offset as int, length as int) ==> r is Err
                && r->Err_0 == Error::IllegalArgument,
    {
        proof {
            use_type_invariant(self);
        }
        let total_len = self.len();
        if offset < 0 || length < 0 || offset as u64 > total_len || length as u64 > total_len
            - offset as u64 {
            return Err(Error::IllegalArgument);
        }
        let start = self.start + offset as u64;
        let r = MmapIndexInput {
            source: self.source.clone(),
            start,
            end: start + length as u64,
            position: 0,
            description: description.to_owned(),
        };
        assert(r@ =~= self@.subrange(offset as int, offset + length));
        Ok(r)
    }

    /// The position of the cursor within the window, which it never
    /// leaves.
    pub fn file_pointer(&self) -> (r: i64)
        ensures
            r == self.position() as i64,
            self.position() <= self@.len(),
    {
        proof {
            use_type_invariant(self);
        }
        #[verifier::truncate]
        (self.position as i64)
    }

    /// Moves the cursor to `pos`. Fails with `IllegalArgument`, and moves
    /// nothing, exactly when `pos` is negative or beyond the window's length.
    pub fn seek(&mut self, pos: i64) -> (r: Result<(), Error>)
        ensures
            final(self)@ == old(self)@,
            final(self).region() == old(self).region(),
            final(self).description() == old(self).description(),
            0 <= pos <= old(self)@.len() ==> r is Ok && final(self).position() == pos,
            !(0 <= pos <= old(self)@.len()) ==> r is Err && r->Err_0 == Error::IllegalArgument
                && final(self).position() == old(self).position(),
    {
        proof {
            use_type_invariant(&*self);
        }
        if pos < 0 || pos as u64 > self.len() {
            return Err(Error::IllegalArgument);
        }
        self.position = pos as u64;
        Ok(())
    }

    /// The number of bytes in the window.
    pub fn len(&self) -> (n: u64)
        ensures
            n == self@.len(),
    {
        proof {
            use_type_invariant(self);
        }
        self.end - self.start
    }

    /// A cursor for reads at absolute offsets over `length` bytes of the
    /// window from `offset`, under the label `RandomAccessSlice`. Fails as
    /// [`MmapIndexInput::slice`] does.
    pub fn random_access_slice(&self, offset: i64, length: i64) -> (r: Result<Self, Error>)
        ensures
            window_fits(self@.len(), offset as int, length as int) ==> r is Ok && r->Ok_0@
                == self@.subrange(offset as int, offset + length) && r->Ok_0.position() == 0
                && r->Ok_0.region() == self.region() && r->Ok_0.description()
                == "RandomAccessSlice"@,
            !window_fits(self@.len(), offset as int, length as int) ==> r is Err
                && r->Err_0 == Error::IllegalArgument,
    {
        self.slice_impl("RandomAccessSlice", offset, length)
    }

    /// A cursor at position 0 over `length` bytes of the window from
    /// `offset`, sharing the same mapping. Fails with `IllegalArgument`
    /// exactly when `offset` or `length` is negative or `offset + length`
    /// exceeds the window's length.
    pub fn slice(&self, description: &str, offset: i64, length: i64) -> (r: Result<Self, Error>)
        ensures
            window_fits(self@.len(), offset as int, length as int) ==> r is Ok && r->Ok_0@
                == self@.subrange(offset as int, offset + length) && r->Ok_0.position() == 0
                && r->Ok_0.description() == description@ && r->Ok_0.region() == self.region(),
            !window_fits(self@.len(), offset as int, length as int) ==> r is Err
                && r->Err_0 == Error::IllegalArgument,
    {
        self.slice_impl(description, offset, length)
    }

    /// The fixed name of this kind of input.
    pub fn name(&self) -> (r: &'static str)
        ensures
            r@ == "MmapIndexInput"@,
    {
        "MmapIndexInput"
    }

    /// Copies bytes from the cursor into the front of `buf`: as many as
    /// `buf` holds or as are left, whichever is fewer, and moves the cursor
    /// past them. At the end of the window it copies nothing and returns 0.
    pub fn read(&mut self, buf: &mut [u8]) -> (count: usize)
        ensures
            final(self)@ == old(self)@,
            final(self).region() == old(self).region(),
            final(self).description() == old(self).description(),
            count == vstd::math::min(
                old(buf)@.len() as int,
                old(self)@.len() - old(self).position(),
            ),
            final(self).position() == old(self).position() + count,
            final(buf)@ == old(self)@.subrange(
                old(self).position() as int,
                old(self).position() + count,
            ) + old(buf)@.skip(count as int),
    {
        proof {
            use_type_invariant(&*self);
            use_type_invariant(&self.source);
        }
        let left = self.end - self.start - self.position;
        let count: usize = if (buf.len() as u64) < left {
            buf.len()
        } else {
            left as usize
        };
        let data = self.source.as_slice();
        let total = data.len();
        let base: usize = (self.start + self.position) as usize;
        let mut i: usize = 0;
        while i < count
            invariant
                i <= count,
                base + count <= total == data@.len(),
                buf@.len() == old(buf)@.len(),
                count <= buf@.len(),
                forall|k: int| 0 <= k < i ==> buf@[k] == data@[base + k],
                forall|k: int| i <= k < buf@.len() ==> buf@[k] == old(buf)@[k],
            decreases count - i,
        {
            buf[i] = data[base + i];
            i += 1;
        }
        assert(data@ == self.source@);
        assert forall|k: int| 0 <= k < count implies buf@[k] == self@[self.position + k] by {
            assert(buf@[k] == data@[base + k]);
        }
        self.position = self.position + count as u64;
        assert(buf@ =~= old(self)@.subrange(
            old(self).position() as int,
            old(self).position() + count,
        ) + old(buf)@.skip(count as int));
        count
    }

    /// Reads the byte at the cursor and moves past it. Fails with
    /// `UnexpectedEof`, and moves nothing, exactly when no byte is left.
    pub fn next_byte(&mut self) -> (r: Result<u8, Error>)
        ensures
            final(self)@ == old(self)@,
            final(self).region() == old(self).region(),
            final(self).description() == old(self).description(),
            old(self).position() + 1 <= old(self)@.len() ==> r is Ok && r->Ok_0 == old(self)@[old(self).position() as int] && final(self).position() == old(self).position() + 1,
            old(self).position() + 1 > old(self)@.len() ==> r is Err && r->Err_0
                == Error::UnexpectedEof && final(self).position() == old(self).position(),
    {
        proof {
            use_type_invariant(&*self);
        }
        if self.len() - self.position < 1 {
            return Err(Error::UnexpectedEof);
        }
        let b = self.byte_at(self.position);
        self.position = self.position + 1;
        Ok(b)
    }

    /// Reads the big-endian 16-bit integer at the cursor and moves past it.
    /// Fails with `UnexpectedEof`, and moves nothing, exactly when fewer
    /// than two bytes are left.
    pub fn next_short(&mut self) -> (r: Result<i16, Error>)
        ensures
            final(self)@ == old(self)@,
            final(self).region() == old(self).region(),
            final(self).description() == old(self).description(),
            old(self).position() + 2 <= old(self)@.len() ==> r is Ok && r->Ok_0 == signed16(
                be16(old(self)@, old(self).position() as int),
            ) && final(self).position() == old(self).position() + 2,
            old(self).position() + 2 > old(self)@.len() ==> r is Err && r->Err_0
                == Error::UnexpectedEof && final(self).position() == old(self).position(),
    {
        proof {
            use_type_invariant(&*self);
        }
        if self.len() - self.position < 2 {
            return Err(Error::UnexpectedEof);
        }
        let b0 = self.byte_at(self.position);
        let b1 = self.byte_at(self.position + 1);
        let v: u16 = b0 as u16 * 0x100 + b1 as u16;
        self.position = self.position + 2;
        Ok(
            #[verifier::truncate]
            (v as i16),
        )
    }

    /// Reads the big-endian 32-bit integer at the cursor and moves past it.
    /// Fails with `UnexpectedEof`, and moves nothing, exactly when fewer
    /// than four bytes are left.
    pub fn next_int(&mut self) -> (r: Result<i32, Error>)
        ensures
            final(self)@ == old(self)@,
            final(self).region() == old(self).region(),
            final(self).description() == old(self).description(),
            old(self).position() + 4 <= old(self)@.len() ==> r is Ok && r->Ok_0 == signed32(
                be32(old(self)@, old(self).position() as int),
            ) && final(self).position() == old(self).position() + 4,
            old(self).position() + 4 > old(self)@.len() ==> r is Err && r->Err_0
                == Error::UnexpectedEof && final(self).position() == old(self).position(),
    {
        proof {
            use_type_invariant(&*self);
        }
        if self.len() - self.position < 4 {
            return Err(Error::UnexpectedEof);
        }
        let v = self.word_at(self.position);
        self.position = self.position + 4;
        Ok(
            #[verifier::truncate]
            (v as i32),
        )
    }

    /// Reads the big-endian 64-bit integer at the cursor and moves past it.
    /// Fails with `UnexpectedEof`, and moves nothing, exactly when fewer
    /// than eight bytes are left.
    pub fn next_long(&mut self) -> (r: Result<i64, Error>)
        ensures
            final(self)@ == old(self)@,
            final(self).region() == old(self).region(),
            final(self).description() == old(self).description(),
            old(self).position() + 8 <= old(self)@.len() ==> r is Ok && r->Ok_0 == signed64(
                be64(old(self)@, old(self).position() as int),
            ) && final(self).position() == old(self).position() + 8,
            old(self).position() + 8 > old(self)@.len() ==> r is Err && r->Err_0
                == Error::UnexpectedEof && final(self).position() == old(self).position(),
    {
        proof {
            use_type_invariant(&*self);
        }
        if self.len() - self.position < 8 {
            return Err(Error::UnexpectedEof);
        }
        let hi = self.word_at(self.position);
        let lo = self.word_at(self.position + 4);
        let v: u64 = hi as u64 * 0x1_0000_0000 + lo as u64;
        self.position = self.position + 8;
        Ok(
            #[verifier::truncate]
            (v as i64),
        )
    }

    fn byte_at(&self, p: u64) -> (b: u8)
        requires
            p < self@.len(),
        ensures
            b == self@[p as int],
    {
        proof {
            use_type_invariant(self);
            use_type_invariant(&self.source);
        }
        let data = self.source.as_slice();
        data[(self.start + p) as usize]
    }

    fn word_at(&self, p: u64) -> (w: u32)
        requires
            p + 4 <= self@.len(),
        ensures
            w == be32(self@, p as int),
    {
        proof {
            use_type_invariant(self);
        }
        let b0 = self.byte_at(p);
        let b1 = self.byte_at(p + 1);
        let b2 = self.byte_at(p + 2);
        let b3 = self.byte_at(p + 3);
        (b0 as u32 * 0x100 + b1 as u32) * 0x1_0000 + (b2 as u32 * 0x100 + b3 as u32)
    }

    /// The byte at `pos`. Fails with `IllegalArgument` exactly when `pos` is
    /// not the offset of a byte of the window.
    pub fn read_byte(&self, pos: i64) -> (r: Result<u8, Error>)
        ensures
            0 <= pos < self@.len() ==> r is Ok && r->Ok_0 == self@[pos as int],
            !(0 <= pos < self@.len()) ==> r is Err && r->Err_0 == Error::IllegalArgument,
    {
        if pos < 0 || pos as u64 >= self.len() {
            return Err(Error::IllegalArgument);
        }
        Ok(self.byte_at(pos as u64))
    }

    /// The two bytes at `pos` as a big-endian 16-bit integer. Fails with
    /// `IllegalArgument` exactly when they do not all lie in the window.
    pub fn read_short(&self, pos: i64) -> (r: Result<i16, Error>)
        ensures
            0 <= pos && pos + 2 <= self@.len() ==> r is Ok && r->Ok_0 == signed16(
                be16(self@, pos as int),
            ),
            !(0 <= pos && pos + 2 <= self@.len()) ==> r is Err && r->Err_0
                == Error::IllegalArgument,
    {
        let len = self.len();
        if pos < 0 || len < 2 || pos as u64 > len - 2 {
            return Err(Error::IllegalArgument);
        }
        let p = pos as u64;
        let b0 = self.byte_at(p);
        let b1 = self.byte_at(p + 1);
        let v: u16 = b0 as u16 * 0x100 + b1 as u16;
        Ok(
            #[verifier::truncate]
            (v as i16),
        )
    }

    /// The four bytes at `pos` as a big-endian 32-bit integer, the most
    /// significant byte first. Fails with `IllegalArgument` exactly when
    /// they do not all lie in the window.
    pub fn read_int(&self, pos: i64) -> (r: Result<i32, Error>)
        ensures
            0 <= pos && pos + 4 <= self@.len() ==> r is Ok && r->Ok_0 == signed32(
                be32(self@, pos as int),
            ),
            !(0 <= pos && pos + 4 <= self@.len()) ==> r is Err && r->Err_0
                == Error::IllegalArgument,
    {
        let len = self.len();
        if pos < 0 || len < 4 || pos as u64 > len - 4 {
            return Err(Error::IllegalArgument);
        }
        let v = self.word_at(pos as u64);
        Ok(
            #[verifier::truncate]
            (v as i32),
        )
    }

    /// The eight bytes at `pos` as a big-endian 64-bit integer: the 32-bit
    /// integer at `pos` is the high half, the one at `pos + 4` the low half.
    /// Fails with `IllegalArgument` exactly when they do not all lie in the
    /// window.
    pub fn read_long(&self, pos: i64) -> (r: Result<i64, Error>)
        ensures
            0 <= pos && pos + 8 <= self@.len() ==> r is Ok && r->Ok_0 == signed64(
                be64(self@, pos as int),
            ),
            !(0 <= pos && pos + 8 <= self@.len()) ==> r is Err && r->Err_0
                == Error::IllegalArgument,
    {
        let len = self.len();
        if pos < 0 || len < 8 || pos as u64 > len - 8 {
            return Err(Error::IllegalArgument);
        }
        let p = pos as u64;
        let hi = self.word_at(p);
        let lo = self.word_at(p + 4);
        let v: u64 = hi as u64 * 0x1_0000_0000 + lo as u64;
        Ok(
            #[verifier::truncate]
            (v as i64),
        )
    }
}

impl From<ReadOnlySource> for MmapIndexInput {
    /// A cursor at position 0 over all of `source`, without a label.
    fn from(source: ReadOnlySource) -> (r: MmapIndexInput)
        ensures
            r@ == source@,
            r.region() == source.region(),
            r.position() == 0,
            r.description() == Seq::<char>::empty(),
    {
        MmapIndexInput::from_source(source)
    }
}

impl vstd::std_specs::convert::FromSpecImpl<ReadOnlySource> for MmapIndexInput {
    /// Two cursors over one view are the same to a reader and need not be
    /// the same value, so the conversion is described by the contract of
    /// `from`, not by one value.
    open spec fn obeys_from_spec() -> bool {
        false
    }

    closed spec fn from_spec(source: ReadOnlySource) -> MmapIndexInput {
        choose|r: MmapIndexInput|
            r@ == source@ && r.region() == source.region() && r.position() == 0 && r.description()
                == Seq::<char>::empty()
    }
}

impl Clone for MmapIndexInput {
    /// An independent cursor over the same bytes, at the same position.
    fn clone(&self) -> (r: Self)
        ensures
            r@ == self@,
            r.region() == self.region(),
            r.position() == self.position(),
            r.description() == self.description(),
    {
        proof {
            use_type_invariant(self);
        }
        MmapIndexInput {
            source: self.source.clone(),
            start: self.start,
            end: self.end,
            position: self.position,
            description: self.description.clone(),
        }
    }
}

} // verus!
