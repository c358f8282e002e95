//! An append-only byte stream with the big-endian and variable-length
//! integer encodings that segment files are written in.

use vstd::prelude::*;

verus! {

/// The byte of `v` that stands `shift` bits above its lowest bit.
pub open spec fn byte_of(v: u64, shift: u64) -> u8 {
    ((v >> shift) & 0xff) as u8
}

/// The big-endian encoding of a 16-bit integer, given by its bits.
pub open spec fn short_bytes(v: u16) -> Seq<u8> {
    seq![byte_of(v as u64, 8), byte_of(v as u64, 0)]
}

/// The big-endian encoding of a 32-bit integer, given by its bits.
pub open spec fn int_bytes(v: u32) -> Seq<u8> {
    seq![byte_of(v as u64, 24), byte_of(v as u64, 16), byte_of(v as u64, 8), byte_of(v as u64, 0)]
}

/// The big-endian encoding of a 64-bit integer, given by its bits.
pub open spec fn long_bytes(v: u64) -> Seq<u8> {
    seq![
        byte_of(v, 56),
        byte_of(v, 48),
        byte_of(v, 40),
        byte_of(v, 32),
        byte_of(v, 24),
        byte_of(v, 16),
        byte_of(v, 8),
        byte_of(v, 0),
    ]
}

/// The variable-length encoding of a 32-bit integer, given by its bits:
/// seven bits to a byte, the lowest first, and the high bit of a byte set
/// where another byte follows.
pub open spec fn vint_bytes(v: u32) -> Seq<u8>
    decreases v,
{
    if v < 0x80 {
        seq![v as u8]
    } else {
        seq![(v % 0x80 + 0x80) as u8] + vint_bytes(v / 0x80)
    }
}

/// The bits of a signed 32-bit integer.
pub open spec fn bits32(v: i32) -> u32 {
    #[verifier::truncate]
    (v as u32)
}

/// The bits of a signed 64-bit integer.
pub open spec fn bits64(v: i64) -> u64 {
    #[verifier::truncate]
    (v as u64)
}

/// The bits of a signed 16-bit integer.
pub open spec fn bits16(v: i16) -> u16 {
    #[verifier::truncate]
    (v as u16)
}

/// An append-only stream of bytes held in memory.
pub struct ByteOutput {
    bytes: Vec<u8>,
}

impl View for ByteOutput {
    type V = Seq<u8>;

    /// Everything written so far.
    closed spec fn view(&self) -> Seq<u8> {
        self.bytes@
    }
}

impl ByteOutput {
    /// An empty stream.
    pub fn new() -> (out: ByteOutput)
        ensures
            out@ == Seq::<u8>::empty(),
    {
        ByteOutput { bytes: Vec::new() }
    }

    /// The offset at which the next byte will be written.
    pub fn file_pointer(&self) -> (p: usize)
        ensures
            p == self@.len(),
    {
        self.bytes.len()
    }

    /// What was written, as a slice.
    pub fn as_slice(&self) -> (s: &[u8])
        ensures
            s@ == self@,
    {
        self.bytes.as_slice()
    }

    /// Hands out what was written.
    pub fn into_bytes(self) -> (v: Vec<u8>)
        ensures
            v@ == self@,
    {
        self.bytes
    }

    /// Appends one byte.
    pub fn write_byte(&mut self, b: u8)
        ensures
            final(self)@ == old(self)@.push(b),
    {
        self.bytes.push(b);
    }

    /// Appends every byte of `src`, in order.
    pub fn write_bytes(&mut self, src: &[u8])
        ensures
            final(self)@ == old(self)@ + src@,
    {
        let mut i: usize = 0;
        while i < src.len()
            invariant
                i <= src@.len(),
                self@ == old(self)@ + src@.take(i as int),
            decreases src@.len() - i,
        {
            self.bytes.push(src[i]);
            i += 1;
            assert(self@ =~= old(self)@ + src@.take(i as int));
        }
        assert(src@.take(i as int) =~= src@);
    }

    /// Appends a 16-bit integer, high byte first.
    pub fn write_short(&mut self, v: i16)
        ensures
            final(self)@ == old(self)@ + short_bytes(bits16(v)),
    {
        let u: u64 = (#[verifier::truncate]
        (v as u16)) as u64;
        self.bytes.push(((u >> 8) & 0xff) as u8);
        self.bytes.push(((u >> 0) & 0xff) as u8);
        assert(self@ =~= old(self)@ + short_bytes(bits16(v)));
    }

    /// Appends a 32-bit integer, most significant byte first.
    pub fn write_int(&mut self, v: i32)
        ensures
            final(self)@ == old(self)@ + int_bytes(bits32(v)),
    {
        let u: u64 = (#[verifier::truncate]
        (v as u32)) as u64;
        self.bytes.push(((u >> 24) & 0xff) as u8);
        self.bytes.push(((u >> 16) & 0xff) as u8);
        self.bytes.push(((u >> 8) & 0xff) as u8);
        self.bytes.push(((u >> 0) & 0xff) as u8);
        assert(self@ =~= old(self)@ + int_bytes(bits32(v)));
    }

    /// Appends a 64-bit integer, most significant byte first.
    pub fn write_long(&mut self, v: i64)
        ensures
            final(self)@ == old(self)@ + long_bytes(bits64(v)),
    {
        self.write_long_bits(
            #[verifier::truncate]
            (v as u64),
        );
    }

    /// Appends the 64 bits of `u`, most significant byte first.
    pub fn write_long_bits(&mut self, u: u64)
        ensures
            final(self)@ == old(self)@ + long_bytes(u),
    {
        self.bytes.push(((u >> 56) & 0xff) as u8);
        self.bytes.push(((u >> 48) & 0xff) as u8);
        self.bytes.push(((u >> 40) & 0xff) as u8);
        self.bytes.push(((u >> 32) & 0xff) as u8);
        self.bytes.push(((u >> 24) & 0xff) as u8);
        self.bytes.push(((u >> 16) & 0xff) as u8);
        self.bytes.push(((u >> 8) & 0xff) as u8);
        self.bytes.push(((u >> 0) & 0xff) as u8);
        assert(self@ =~= old(self)@ + long_bytes(u));
    }

    /// Appends a 32-bit integer in the variable-length encoding. A negative
    /// value takes five bytes.
    pub fn write_vint(&mut self, v: i32)
        ensures
            final(self)@ == old(self)@ + vint_bytes(bits32(v)),
    {
        let mut u: u32 = #[verifier::truncate]
        (v as u32);
        while u >= 0x80
            invariant
                self@ + vint_bytes(u) == old(self)@ + vint_bytes(bits32(v)),
            decreases u,
        {
            let ghost before = self@;
            self.bytes.push((u % 0x80 + 0x80) as u8);
            assert(self@ + vint_bytes(u / 0x80) =~= before + vint_bytes(u));
            u = u / 0x80;
        }
        let ghost before = self@;
        self.bytes.push(u as u8);
        assert(self@ =~= before + vint_bytes(u));
    }
}

} // verus!
