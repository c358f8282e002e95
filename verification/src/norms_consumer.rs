//! The writer of per-field norms: one integer per document, stored as a
//! constant where all documents agree and else in the narrowest fixed width
//! that holds every value.

use crate::codec_util::{footer, header_fits, index_header, write_footer, write_index_header};
use crate::data_output::{
    bits16, bits32, bits64, int_bytes, long_bytes, short_bytes, vint_bytes, ByteOutput,
};
use crate::error::Error;
use vstd::prelude::*;
use vstd::utf8::encode_utf8;

verus! {

/// The format version written into both headers.
pub const VERSION_CURRENT: i32 = 0;

/// What the writer needs to know of the segment being flushed.
pub struct SegmentWriteState {
    pub segment_name: String,
    pub segment_suffix: String,
    pub segment_id: Vec<u8>,
    pub max_doc: i32,
}

/// What the writer needs to know of a field.
pub struct FieldInfo {
    pub name: String,
    pub number: u32,
}

/// A sequence of values, one per document in document order, that can be
/// walked to its end and then restarted, giving the same values again.
pub struct NormValues {
    values: Vec<i64>,
    next: usize,
}

impl NormValues {
    #[verifier::type_invariant]
    spec fn inv(&self) -> bool {
        self.next <= self.values@.len()
    }

    /// All values of the sequence.
    pub closed spec fn values(&self) -> Seq<i64> {
        self.values@
    }

    /// How many values the current walk has handed out.
    pub closed spec fn cursor(&self) -> nat {
        self.next as nat
    }

    /// The values that the current walk has yet to hand out.
    pub open spec fn remaining(&self) -> Seq<i64> {
        self.values().skip(self.cursor() as int)
    }

    /// A sequence over `values`, at its start.
    pub fn new(values: Vec<i64>) -> (r: NormValues)
        ensures
            r.values() == values@,
            r.cursor() == 0,
    {
        NormValues { values, next: 0 }
    }

    /// The next value of the walk, or `None` at the end, where the walk
    /// stays until it is restarted.
    pub fn next(&mut self) -> (r: Option<i64>)
        ensures
            final(self).values() == old(self).values(),
            old(self).cursor() <= old(self).values().len(),
            old(self).cursor() < old(self).values().len() ==> r == Some(
                old(self).values()[old(self).cursor() as int],
            ) && final(self).cursor() == old(self).cursor() + 1,
            old(self).cursor() == old(self).values().len() ==> r is None && final(self).cursor()
                == old(self).cursor(),
    {
        proof {
            use_type_invariant(&*self);
        }
        if self.next < self.values.len() {
            let v = self.values[self.next];
            self.next = self.next + 1;
            Some(v)
        } else {
            None
        }
    }

    /// Restarts the walk.
    pub fn reset(&mut self)
        ensures
            final(self).values() == old(self).values(),
            final(self).cursor() == 0,
    {
        self.next = 0;
    }
}

/// The least value of `s`, or the greatest integer when `s` is empty.
pub open spec fn min_of(s: Seq<i64>) -> i64
    decreases s.len(),
{
    if s.len() == 0 {
        i64::MAX
    } else if s.last() < min_of(s.drop_last()) {
        s.last()
    } else {
        min_of(s.drop_last())
    }
}

/// The greatest value of `s`, or the least integer when `s` is empty.
pub open spec fn max_of(s: Seq<i64>) -> i64
    decreases s.len(),
{
    if s.len() == 0 {
        i64::MIN
    } else if s.last() > max_of(s.drop_last()) {
        s.last()
    } else {
        max_of(s.drop_last())
    }
}

/// The narrowest of 1, 2, 4 and 8 bytes whose signed range holds both
/// `min_value` and `max_value`.
pub open spec fn norm_width(min_value: i64, max_value: i64) -> u8 {
    if min_value >= i8::MIN && max_value <= i8::MAX {
        1
    } else if min_value >= i16::MIN && max_value <= i16::MAX {
        2
    } else if min_value >= i32::MIN && max_value <= i32::MAX {
        4
    } else {
        8
    }
}

/// One value in `width` bytes, big-endian: its low `width` bytes.
pub open spec fn value_bytes(v: i64, width: u8) -> Seq<u8> {
    if width == 1 {
        seq![
            #[verifier::truncate]
            (v as u8),
        ]
    } else if width == 2 {
        short_bytes(
            #[verifier::truncate]
            (v as u16),
        )
    } else if width == 4 {
        int_bytes(
            #[verifier::truncate]
            (v as u32),
        )
    } else {
        long_bytes(bits64(v))
    }
}

/// The values of `s`, each in `width` bytes, one after the other.
pub open spec fn values_bytes(s: Seq<i64>, width: u8) -> Seq<u8>
    decreases s.len(),
{
    if s.len() == 0 {
        Seq::empty()
    } else {
        values_bytes(s.drop_last(), width) + value_bytes(s.last(), width)
    }
}

/// The directory record of a constant field: the marker 0 and the value.
pub open spec fn constant_record(constant: i64) -> Seq<u8> {
    seq![0u8] + long_bytes(bits64(constant))
}

/// The directory record of a field stored value by value: the width as the
/// marker, and the offset in the data file at which its values start.
pub open spec fn width_record(width: u8, data_offset: nat) -> Seq<u8> {
    seq![width] + long_bytes(data_offset as u64)
}

/// What a field adds to the directory behind its number, where the first
/// walk saw `seen` and the data file held `data_offset` bytes.
pub open spec fn field_record(seen: Seq<i64>, data_offset: nat) -> Seq<u8> {
    if min_of(seen) == max_of(seen) {
        constant_record(min_of(seen))
    } else {
        width_record(norm_width(min_of(seen), max_of(seen)), data_offset)
    }
}

/// What a field adds to the data file, where the first walk saw `seen` and
/// the restarted walk gives `all`.
pub open spec fn field_data(seen: Seq<i64>, all: Seq<i64>) -> Seq<u8> {
    if min_of(seen) == max_of(seen) {
        Seq::empty()
    } else {
        values_bytes(all, norm_width(min_of(seen), max_of(seen)))
    }
}

/// The two finished files of a segment's norms.
pub struct NormsFiles {
    pub meta: Vec<u8>,
    pub data: Vec<u8>,
}

/// The writer of a segment's norms: a directory of field records in `meta`
/// and the values of the fields that are not constant in `data`.
pub struct Lucene53NormsConsumer {
    data: ByteOutput,
    meta: ByteOutput,
    max_doc: i32,
}

impl Lucene53NormsConsumer {
    /// The bytes of the directory file so far.
    pub closed spec fn meta(&self) -> Seq<u8> {
        self.meta@
    }

    /// The bytes of the data file so far.
    pub closed spec fn data(&self) -> Seq<u8> {
        self.data@
    }

    /// The number of documents of the segment.
    pub closed spec fn max_doc(&self) -> i32 {
        self.max_doc
    }

    /// A writer for the segment of `state`, with the header of each file
    /// written. Fails with `IllegalArgument` exactly when a header cannot
    /// hold a codec name, the segment id or the suffix.
    pub fn new(state: &SegmentWriteState, data_codec: &str, meta_codec: &str) -> (r: Result<
        Lucene53NormsConsumer,
        Error,
    >)
        ensures
            ({
                let id = state.segment_id@;
                let suffix = encode_utf8(state.segment_suffix@);
                let fits = header_fits(encode_utf8(data_codec@), id, suffix) && header_fits(
                    encode_utf8(meta_codec@),
                    id,
                    suffix,
                );
                &&& fits ==> r is Ok && r->Ok_0.max_doc() == state.max_doc && r->Ok_0.data()
                    == index_header(encode_utf8(data_codec@), VERSION_CURRENT, id, suffix)
                    && r->Ok_0.meta() == index_header(
                    encode_utf8(meta_codec@),
                    VERSION_CURRENT,
                    id,
                    suffix,
                )
                &&& !fits ==> r is Err && r->Err_0 == Error::IllegalArgument
            }),
    {
        let suffix = state.segment_suffix.as_str();
        let id = state.segment_id.as_slice();
        let mut data = ByteOutput::new();
        match write_index_header(&mut data, data_codec, VERSION_CURRENT, id, suffix) {
            Ok(()) => {},
            Err(e) => {
                return Err(e);
            },
        }
        let mut meta = ByteOutput::new();
        match write_index_header(&mut meta, meta_codec, VERSION_CURRENT, id, suffix) {
            Ok(()) => {},
            Err(e) => {
                return Err(e);
            },
        }
        Ok(Lucene53NormsConsumer { data, meta, max_doc: state.max_doc })
    }

    /// Records a constant field: the marker 0 and the value go to the
    /// directory, nothing to the data file.
    pub fn add_constant(&mut self, constant: i64)
        ensures
            final(self).meta() == old(self).meta() + constant_record(constant),
            final(self).data() == old(self).data(),
            final(self).max_doc() == old(self).max_doc(),
    {
        self.meta.write_byte(0u8);
        self.meta.write_long(constant);
        assert(self.meta@ =~= old(self).meta@ + constant_record(constant));
    }

    /// The narrowest of 1, 2, 4 and 8 bytes, tried in that order, whose
    /// signed range holds both `min_value` and `max_value`.
    pub fn byte_width(min_value: i64, max_value: i64) -> (width: u8)
        ensures
            width == norm_width(min_value, max_value),
    {
        if min_value >= i8::MIN as i64 && max_value <= i8::MAX as i64 {
            1
        } else if min_value >= i16::MIN as i64 && max_value <= i16::MAX as i64 {
            2
        } else if min_value >= i32::MIN as i64 && max_value <= i32::MAX as i64 {
            4
        } else {
            8
        }
    }

    /// Records a field value by value: the width for `[min_value,
    /// max_value]` and the current end of the data file go to the
    /// directory, and every value that the walk of `values` still gives
    /// goes to the data file in that width. The walk is restarted.
    pub fn add_byte(&mut self, min_value: i64, max_value: i64, values: &mut NormValues)
        ensures
            final(self).meta() == old(self).meta() + width_record(
                norm_width(min_value, max_value),
                old(self).data().len(),
            ),
            final(self).data() == old(self).data() + values_bytes(
                old(values).remaining(),
                norm_width(min_value, max_value),
            ),
            final(self).max_doc() == old(self).max_doc(),
            final(values).values() == old(values).values(),
            final(values).cursor() == 0,
    {
        proof {
            use_type_invariant(&*values);
        }
        let len = Self::byte_width(min_value, max_value);
        self.meta.write_byte(len);
        self.meta.write_long_bits(self.data.file_pointer() as u64);
        assert(self.meta@ =~= old(self).meta@ + width_record(len, old(self).data().len()));
        let ghost rest = old(values).remaining();
        let ghost start = old(values).cursor() as int;
        assert(rest.take(0) =~= Seq::<i64>::empty());
        loop
            invariant
                len == norm_width(min_value, max_value),
                self.meta@ == old(self).meta@ + width_record(len, old(self).data().len()),
                self.max_doc == old(self).max_doc,
                values.values() == old(values).values(),
                rest == old(values).remaining(),
                start == old(values).cursor(),
                start <= values.cursor() <= values.values().len(),
                self.data@ == old(self).data@ + values_bytes(rest.take(values.cursor() - start), len),
            ensures
                values.cursor() == values.values().len(),
            decreases values.values().len() - values.cursor(),
        {
            let ghost done = values.cursor() - start;
            let ghost before = self.data@;
            match values.next() {
                Some(nv) => {
                    if len == 1 {
                        self.data.write_byte(
                            #[verifier::truncate]
                            (nv as u8),
                        );
                    } else if len == 2 {
                        self.data.write_short(
                            #[verifier::truncate]
                            (nv as i16),
                        );
                    } else if len == 4 {
                        self.data.write_int(
                            #[verifier::truncate]
                            (nv as i32),
                        );
                    } else {
                        self.data.write_long(nv);
                    }
                    proof {
                        let now = rest.take(done + 1);
                        assert(now.drop_last() =~= rest.take(done));
                        assert(now.last() == nv);
                        lemma_narrowing(nv);
                        assert(self.data@ =~= before + value_bytes(nv, len));
                        assert(self.data@ =~= old(self).data@ + values_bytes(now, len));
                    }
                },
                None => {
                    break ;
                },
            }
        }
        assert(rest.take(values.cursor() - start) =~= rest);
        values.reset();
    }

    /// Writes one field: its number, then a constant record where all
    /// values agree, and else a width record with the values in the data
    /// file. The first walk of `values` finds the least and the greatest
    /// value and counts; the values written are those of the restarted
    /// walk. Fails with `CountMismatch` exactly when the first walk gives
    /// another number of values than the segment has documents: then only
    /// the field's number has been added to the directory, and the data file
    /// is as it was. Either way what the two files held stays in front.
    pub fn add_norms_field(&mut self, field_info: &FieldInfo, values: &mut NormValues) -> (r:
        Result<(), Error>)
        ensures
            final(self).max_doc() == old(self).max_doc(),
            final(values).values() == old(values).values(),
            final(values).cursor() == 0,
            old(values).remaining().len() == old(self).max_doc() ==> r is Ok && final(self).meta()
                == old(self).meta() + vint_bytes(field_info.number) + field_record(
                old(values).remaining(),
                old(self).data().len(),
            ) && final(self).data() == old(self).data() + field_data(
                old(values).remaining(),
                old(values).values(),
            ),
            old(values).remaining().len() != old(self).max_doc() ==> (r matches Err(
                Error::CountMismatch { field, expected, got },
            ) && field == field_info.name && expected == old(self).max_doc() && got == old(values).remaining().len()) && final(self).meta() == old(self).meta() + vint_bytes(field_info.number)
                && final(self).data() == old(self).data(),
    {
        self.meta.write_vint(
            #[verifier::truncate]
            (field_info.number as i32),
        );
        proof {
            use_type_invariant(&*values);
            lemma_bits32(field_info.number);
        }
        let mut min_value = i64::MAX;
        let mut max_value = i64::MIN;
        let mut count: usize = 0;
        let ghost rest = old(values).remaining();
        let ghost start = old(values).cursor() as int;
        assert(rest.take(0) =~= Seq::<i64>::empty());
        loop
            invariant
                self.meta@ == old(self).meta@ + vint_bytes(field_info.number),
                self.data@ == old(self).data@,
                self.max_doc == old(self).max_doc,
                values.values() == old(values).values(),
                rest == old(values).remaining(),
                start == old(values).cursor(),
                start <= values.cursor() <= values.values().len(),
                count == values.cursor() - start,
                min_value == min_of(rest.take(count as int)),
                max_value == max_of(rest.take(count as int)),
            ensures
                values.cursor() == values.values().len(),
            decreases values.values().len() - values.cursor(),
        {
            match values.next() {
                Some(v) => {
                    proof {
                        let now = rest.take(count + 1);
                        assert(now.drop_last() =~= rest.take(count as int));
                        assert(now.last() == v);
                    }
                    if v < min_value {
                        min_value = v;
                    }
                    if v > max_value {
                        max_value = v;
                    }
                    count += 1;
                },
                None => {
                    break ;
                },
            }
        }
        assert(rest.take(count as int) =~= rest);
        values.reset();
        if self.max_doc < 0 || count != self.max_doc as usize {
            return Err(
                Error::CountMismatch {
                    field: field_info.name.clone(),
                    expected: self.max_doc,
                    got: count,
                },
            );
        }
        if min_value == max_value {
            self.add_constant(min_value);
        } else {
            assert(values.remaining() =~= values.values());
            self.add_byte(min_value, max_value, values);
        }
        assert(final(self).meta() =~= old(self).meta() + vint_bytes(field_info.number)
            + field_record(rest, old(self).data().len()));
        assert(final(self).data() =~= old(self).data() + field_data(rest, old(values).values()));
        Ok(())
    }

    /// Closes both files: the directory gets the field number -1 as its
    /// end mark, and each file its checksum footer. This consumes the
    /// writer, so it happens once, whether or not every field was written.
    pub fn finish(self) -> (files: NormsFiles)
        ensures
            files.meta@ == self.meta() + vint_bytes(bits32(-1i32)) + footer(
                self.meta() + vint_bytes(bits32(-1i32)),
            ),
            files.data@ == self.data() + footer(self.data()),
    {
        let mut meta = self.meta;
        let mut data = self.data;
        meta.write_vint(-1);
        write_footer(&mut meta);
        write_footer(&mut data);
        NormsFiles { meta: meta.into_bytes(), data: data.into_bytes() }
    }
}

/// A field number keeps its bits on the way through a signed integer.
proof fn lemma_bits32(n: u32)
    ensures
        bits32(
            #[verifier::truncate]
            (n as i32),
        ) == n,
{
    assert(((n as i32) as u32) == n) by (bit_vector);
}

/// The bits of a value narrowed to a signed width are the value's low bits.
proof fn lemma_narrowing(v: i64)
    ensures
        bits16(
            #[verifier::truncate]
            (v as i16),
        ) == #[verifier::truncate]
        (v as u16),
        bits32(
            #[verifier::truncate]
            (v as i32),
        ) == #[verifier::truncate]
        (v as u32),
{
    assert(((v as i16) as u16) == (v as u16)) by (bit_vector);
    assert(((v as i32) as u32) == (v as u32)) by (bit_vector);
}

} // verus!
