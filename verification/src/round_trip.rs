//! What was written is what is read: the big-endian integers of the byte
//! output come back from the reads of the cursor, and the record of a
//! norms field gives every document its value again.

use crate::data_output::{bits16, bits32, bits64, byte_of, int_bytes, long_bytes, short_bytes};
use crate::mmap_index_input::{be16, be32, be64, signed16, signed32, signed64};
use crate::norms_consumer::{
    constant_record, field_data, field_record, max_of, min_of, norm_width, value_bytes,
    values_bytes, width_record,
};
use vstd::prelude::*;

verus! {

/// The two bytes of a 16-bit integer, the high one first, have its value.
proof fn lemma_short_bits(u: u16)
    ensures
        byte_of(u as u64, 8) * 0x100 + byte_of(u as u64, 0) == u,
{
    assert((((((u as u64) >> 8) & 0xff) as u8) * 0x100 + ((((u as u64) >> 0) & 0xff) as u8)) == u)
        by (bit_vector);
}

/// The four bytes of a 32-bit integer, the highest first, have its value.
proof fn lemma_int_bits(u: u32)
    ensures
        (byte_of(u as u64, 24) * 0x100 + byte_of(u as u64, 16)) * 0x1_0000 + (byte_of(u as u64, 8)
            * 0x100 + byte_of(u as u64, 0)) == u,
{
    assert((((((u as u64) >> 24) & 0xff) as u8) * 0x100 + ((((u as u64) >> 16) & 0xff) as u8))
        == (u >> 16)) by (bit_vector);
    assert((((((u as u64) >> 8) & 0xff) as u8) * 0x100 + ((((u as u64) >> 0) & 0xff) as u8)) == (u
        & 0xffff)) by (bit_vector);
    assert((u >> 16) * 0x1_0000 + (u & 0xffff) == u) by (bit_vector);
}

/// The eight bytes of a 64-bit integer, the highest first, have its value.
proof fn lemma_long_bits(u: u64)
    ensures
        ((byte_of(u, 56) * 0x100 + byte_of(u, 48)) * 0x1_0000 + (byte_of(u, 40) * 0x100 + byte_of(
            u,
            32,
        ))) * 0x1_0000_0000 + ((byte_of(u, 24) * 0x100 + byte_of(u, 16)) * 0x1_0000 + (byte_of(u, 8)
            * 0x100 + byte_of(u, 0))) == u,
{
    let hi: u32 = (u >> 32) as u32;
    let lo: u32 = (u & 0xffff_ffff) as u32;
    lemma_int_bits(hi);
    lemma_int_bits(lo);
    assert(hi == (u >> 32) as u32 ==> byte_of(hi as u64, 24) == byte_of(u, 56) && byte_of(
        hi as u64,
        16,
    ) == byte_of(u, 48) && byte_of(hi as u64, 8) == byte_of(u, 40) && byte_of(hi as u64, 0)
        == byte_of(u, 32)) by (bit_vector);
    assert(lo == (u & 0xffff_ffff) as u32 ==> byte_of(lo as u64, 24) == byte_of(u, 24) && byte_of(
        lo as u64,
        16,
    ) == byte_of(u, 16) && byte_of(lo as u64, 8) == byte_of(u, 8) && byte_of(lo as u64, 0)
        == byte_of(u, 0)) by (bit_vector);
    assert(hi == (u >> 32) as u32 && lo == (u & 0xffff_ffff) as u32 ==> hi * 0x1_0000_0000 + lo
        == u) by (bit_vector);
}

/// A 16-bit integer written big-endian anywhere in a file is the one that
/// a read at that place gives.
pub proof fn lemma_short_round_trip(front: Seq<u8>, v: i16, back: Seq<u8>)
    ensures
        signed16(be16(front + short_bytes(bits16(v)) + back, front.len() as int)) == v,
{
    let u = bits16(v);
    let s = front + short_bytes(u) + back;
    let p = front.len() as int;
    assert(s[p] == short_bytes(u)[0] && s[p + 1] == short_bytes(u)[1]);
    lemma_short_bits(u);
    assert(((v as u16) as i16) == v) by (bit_vector);
}

/// A 32-bit integer written big-endian anywhere in a file is the one that
/// a read at that place gives.
pub proof fn lemma_int_round_trip(front: Seq<u8>, v: i32, back: Seq<u8>)
    ensures
        signed32(be32(front + int_bytes(bits32(v)) + back, front.len() as int)) == v,
{
    let u = bits32(v);
    let s = front + int_bytes(u) + back;
    let p = front.len() as int;
    assert(s[p] == int_bytes(u)[0] && s[p + 1] == int_bytes(u)[1] && s[p + 2] == int_bytes(u)[2]
        && s[p + 3] == int_bytes(u)[3]);
    lemma_int_bits(u);
    assert(((v as u32) as i32) == v) by (bit_vector);
}

/// The eight bytes of `u` written big-endian anywhere in a file have the
/// value `u`.
pub proof fn lemma_long_bits_round_trip(front: Seq<u8>, u: u64, back: Seq<u8>)
    ensures
        be64(front + long_bytes(u) + back, front.len() as int) == u,
{
    let s = front + long_bytes(u) + back;
    let p = front.len() as int;
    assert(s[p] == long_bytes(u)[0] && s[p + 1] == long_bytes(u)[1] && s[p + 2] == long_bytes(u)[2]
        && s[p + 3] == long_bytes(u)[3] && s[p + 4] == long_bytes(u)[4] && s[p + 5] == long_bytes(
        u,
    )[5] && s[p + 6] == long_bytes(u)[6] && s[p + 7] == long_bytes(u)[7]);
    lemma_long_bits(u);
}

/// A 64-bit integer written big-endian anywhere in a file is the one that
/// a read at that place gives.
pub proof fn lemma_long_round_trip(front: Seq<u8>, v: i64, back: Seq<u8>)
    ensures
        signed64(be64(front + long_bytes(bits64(v)) + back, front.len() as int)) == v,
{
    lemma_long_bits_round_trip(front, bits64(v), back);
    assert(((v as u64) as i64) == v) by (bit_vector);
}

/// The value that a field's record gives the document `doc`, where
/// `record` is what follows the field's number in the directory and `data`
/// is the data file: the constant of a constant record, and else the
/// integer that stands in the record's width at the document's place
/// behind the record's offset.
pub open spec fn norm_at(record: Seq<u8>, data: Seq<u8>, doc: int) -> i64 {
    let width = record[0];
    let at = be64(record, 1) + doc * width;
    if width == 0 {
        signed64(be64(record, 1))
    } else if width == 1 {
        (#[verifier::truncate]
        (data[at] as i8)) as i64
    } else if width == 2 {
        signed16(be16(data, at)) as i64
    } else if width == 4 {
        signed32(be32(data, at)) as i64
    } else {
        signed64(be64(data, at))
    }
}

/// Every value of a list lies between its least and its greatest.
pub proof fn lemma_min_max(s: Seq<i64>)
    ensures
        forall|i: int| 0 <= i < s.len() ==> min_of(s) <= #[trigger] s[i] <= max_of(s),
    decreases s.len(),
{
    if s.len() > 0 {
        let front = s.drop_last();
        lemma_min_max(front);
        assert forall|i: int| 0 <= i < s.len() implies min_of(s) <= #[trigger] s[i] <= max_of(
            s,
        ) by {
            if i < front.len() {
                assert(front[i] == s[i]);
            }
        }
    }
}

/// The data of a field takes the width for every value.
pub proof fn lemma_values_len(s: Seq<i64>, width: u8)
    requires
        width == 1 || width == 2 || width == 4 || width == 8,
    ensures
        values_bytes(s, width).len() == s.len() * width,
    decreases s.len(),
{
    if s.len() > 0 {
        lemma_values_len(s.drop_last(), width);
        assert(value_bytes(s.last(), width).len() == width);
        assert((s.len() - 1) * width + width == s.len() * width) by (nonlinear_arith);
    }
}

/// In the data of a field the bytes of the value at `i` stand at `i` times
/// the width.
pub proof fn lemma_values_layout(s: Seq<i64>, width: u8, i: int, k: int)
    requires
        width == 1 || width == 2 || width == 4 || width == 8,
        0 <= i < s.len(),
        0 <= k < width,
    ensures
        0 <= i * width + k < values_bytes(s, width).len(),
        values_bytes(s, width)[i * width + k] == value_bytes(s[i], width)[k],
    decreases s.len(),
{
    let front = s.drop_last();
    lemma_values_len(front, width);
    lemma_values_len(s, width);
    assert(value_bytes(s.last(), width).len() == width);
    assert(0 <= i * width && i * width + width <= s.len() * width) by (nonlinear_arith)
        requires
            0 <= i < s.len(),
            width >= 1,
    ;
    if i < front.len() {
        lemma_values_layout(front, width, i, k);
        assert(front[i] == s[i]);
    } else {
        assert(i * width == front.len() * width);
    }
}

/// A reader finds for every document the value that was written for it:
/// where a field with the values `seen` was added behind `front` in the
/// data file, its record gives the document `doc` the value `seen[doc]`,
/// whatever follows in the data file. For a field whose values are all the
/// same this is the constant.
pub proof fn lemma_field_decodes(seen: Seq<i64>, front: Seq<u8>, back: Seq<u8>, doc: int)
    requires
        0 <= doc < seen.len(),
        front.len() <= u64::MAX,
    ensures
        norm_at(
            field_record(seen, front.len()),
            front + field_data(seen, seen) + back,
            doc,
        ) == seen[doc],
{
    lemma_min_max(seen);
    let low = min_of(seen);
    let high = max_of(seen);
    let v = seen[doc];
    assert(low <= v <= high);
    let data = front + field_data(seen, seen) + back;
    if low == high {
        let record = constant_record(low);
        assert(record =~= seq![0u8] + long_bytes(bits64(low)) + Seq::<u8>::empty());
        lemma_long_round_trip(seq![0u8], low, Seq::<u8>::empty());
    } else {
        let width = norm_width(low, high);
        let offset = front.len() as u64;
        let record = width_record(width, front.len());
        assert(record =~= seq![width] + long_bytes(offset) + Seq::<u8>::empty());
        lemma_long_bits_round_trip(seq![width], offset, Seq::<u8>::empty());
        assert(be64(record, 1) == offset);
        let at = offset + doc * width;
        let body = values_bytes(seen, width);
        assert(data.len() == front.len() + body.len() + back.len());
        lemma_values_layout(seen, width, doc, 0);
        lemma_values_layout(seen, width, doc, width - 1);
        assert(at + width <= data.len());
        assert forall|k: int| 0 <= k < width implies #[trigger] data[at + k] == value_bytes(
            v,
            width,
        )[k] by {
            lemma_values_layout(seen, width, doc, k);
            assert(data[at + k] == body[doc * width + k]);
        }
        assert(norm_at(record, data, doc) == v) by {
            if width == 1 {
                assert(data[at + 0] == value_bytes(v, width)[0]);
                assert(-128 <= v <= 127 ==> (((v as u8) as i8) as i64) == v) by (bit_vector);
            } else if width == 2 {
                let rest = data.skip(at + 2);
                let narrow: i16 = #[verifier::truncate]
                (v as i16);
                assert(-32768 <= v <= 32767 ==> ((v as i16) as u16) == (v as u16) && ((
                v as i16) as i64) == v) by (bit_vector);
                assert(data[at + 0] == value_bytes(v, width)[0]);
                assert(data[at + 1] == value_bytes(v, width)[1]);
                assert(data =~= data.take(at) + short_bytes(bits16(narrow)) + rest);
                lemma_short_round_trip(data.take(at), narrow, rest);
            } else if width == 4 {
                let rest = data.skip(at + 4);
                let narrow: i32 = #[verifier::truncate]
                (v as i32);
                assert(-0x8000_0000 <= v <= 0x7fff_ffff ==> ((v as i32) as u32) == (v as u32) && ((
                v as i32) as i64) == v) by (bit_vector);
                assert(data[at + 0] == value_bytes(v, width)[0]);
                assert(data[at + 1] == value_bytes(v, width)[1]);
                assert(data[at + 2] == value_bytes(v, width)[2]);
                assert(data[at + 3] == value_bytes(v, width)[3]);
                assert(data =~= data.take(at) + int_bytes(bits32(narrow)) + rest);
                lemma_int_round_trip(data.take(at), narrow, rest);
            } else {
                let rest = data.skip(at + 8);
                assert(data[at + 0] == value_bytes(v, width)[0]);
                assert(data[at + 1] == value_bytes(v, width)[1]);
                assert(data[at + 2] == value_bytes(v, width)[2]);
                assert(data[at + 3] == value_bytes(v, width)[3]);
                assert(data[at + 4] == value_bytes(v, width)[4]);
                assert(data[at + 5] == value_bytes(v, width)[5]);
                assert(data[at + 6] == value_bytes(v, width)[6]);
                assert(data[at + 7] == value_bytes(v, width)[7]);
                assert(data =~= data.take(at) + long_bytes(bits64(v)) + rest);
                lemma_long_round_trip(data.take(at), v, rest);
            }
        }
    }
}

/// A field whose documents all have the value `c` is stored as a constant
/// record and nothing else, and the record gives every document `c`.
pub proof fn lemma_constant_field(seen: Seq<i64>, c: i64, data_offset: nat, data: Seq<u8>, doc: int)
    requires
        seen.len() > 0,
        forall|i: int| 0 <= i < seen.len() ==> seen[i] == c,
    ensures
        field_record(seen, data_offset) == constant_record(c),
        field_data(seen, seen) == Seq::<u8>::empty(),
        norm_at(constant_record(c), data, doc) == c,
{
    lemma_extremes_occur(seen);
    assert(constant_record(c) =~= seq![0u8] + long_bytes(bits64(c)) + Seq::<u8>::empty());
    lemma_long_round_trip(seq![0u8], c, Seq::<u8>::empty());
}

/// The width of a field that is not constant is the narrowest that holds
/// every value: one byte exactly when all values lie in `[-128, 127]`, at
/// most two exactly when all lie in the 16-bit range, at most four exactly
/// when all lie in the 32-bit range.
pub proof fn lemma_width_fits(seen: Seq<i64>)
    requires
        seen.len() > 0,
    ensures
        norm_width(min_of(seen), max_of(seen)) == 1 <==> (forall|i: int|
            0 <= i < seen.len() ==> -0x80 <= #[trigger] seen[i] <= 0x7f),
        norm_width(min_of(seen), max_of(seen)) <= 2 <==> (forall|i: int|
            0 <= i < seen.len() ==> -0x8000 <= #[trigger] seen[i] <= 0x7fff),
        norm_width(min_of(seen), max_of(seen)) <= 4 <==> (forall|i: int|
            0 <= i < seen.len() ==> -0x8000_0000 <= #[trigger] seen[i] <= 0x7fff_ffff),
{
    lemma_min_max(seen);
    lemma_extremes_occur(seen);
}

/// The least and the greatest value of a list that is not empty are values
/// of the list.
pub proof fn lemma_extremes_occur(s: Seq<i64>)
    requires
        s.len() > 0,
    ensures
        exists|i: int| 0 <= i < s.len() && #[trigger] s[i] == min_of(s),
        exists|i: int| 0 <= i < s.len() && #[trigger] s[i] == max_of(s),
    decreases s.len(),
{
    let front = s.drop_last();
    let n = s.len() - 1;
    if front.len() > 0 {
        lemma_extremes_occur(front);
        let a = choose|i: int| 0 <= i < front.len() && #[trigger] front[i] == min_of(front);
        let b = choose|i: int| 0 <= i < front.len() && #[trigger] front[i] == max_of(front);
        assert(s[a] == front[a] && s[b] == front[b]);
        if s.last() < min_of(front) {
            assert(s[n] == min_of(s));
        } else {
            assert(s[a] == min_of(s));
        }
        if s.last() > max_of(front) {
            assert(s[n] == max_of(s));
        } else {
            assert(s[b] == max_of(s));
        }
    } else {
        assert(min_of(front) == i64::MAX && max_of(front) == i64::MIN);
        assert(s[n] == min_of(s));
        assert(s[n] == max_of(s));
    }
}

/// A value of 200 among values of `[-128, 127]` takes the field from one
/// byte to two.
pub proof fn lemma_width_escalates(seen: Seq<i64>)
    requires
        seen.len() > 0,
        forall|i: int| 0 <= i < seen.len() ==> -0x80 <= #[trigger] seen[i] <= 0x7f,
    ensures
        norm_width(min_of(seen), max_of(seen)) == 1,
        norm_width(min_of(seen.push(200)), max_of(seen.push(200))) == 2,
{
    lemma_width_fits(seen);
    let more = seen.push(200);
    lemma_width_fits(more);
    assert(more[seen.len() as int] == 200);
    assert forall|i: int| 0 <= i < more.len() implies -0x8000 <= #[trigger] more[i] <= 0x7fff by {
        if i < seen.len() {
            assert(more[i] == seen[i]);
        }
    }
}

} // verus!
