//! The header that every segment file starts with and the checksum footer
//! that it ends with.

use crate::data_output::{bits32, int_bytes, long_bytes, vint_bytes, ByteOutput};
use crate::error::Error;
use vstd::prelude::*;
use vstd::utf8::encode_utf8;

verus! {

/// The first four bytes of every segment file.
pub const CODEC_MAGIC: i32 = 0x3fd7_6c17;

/// The first four bytes of every footer: the complement of `CODEC_MAGIC`.
pub const FOOTER_MAGIC: i32 = -0x3fd7_6c18;

/// The number of bytes of a segment id.
pub const ID_LENGTH: usize = 16;

/// The CRC-32 checksum (ISO HDLC, the one of zlib and PNG) of `bytes`.
pub uninterp spec fn crc32_of(bytes: Seq<u8>) -> u32;

/// `Crc::<u32>::checksum` of the `crc` crate with the algorithm
/// `CRC_32_ISO_HDLC`: the checksum depends on the bytes alone.
#[verifier::external_body]
fn crc32(bytes: &[u8]) -> (sum: u32)
    ensures
        sum == crc32_of(bytes@),
{
    crc::Crc::<u32>::new(&crc::CRC_32_ISO_HDLC).checksum(bytes)
}

/// Whether a header can be written for these parts: the codec name takes
/// fewer than 128 bytes, the id exactly 16, the suffix fewer than 256.
pub open spec fn header_fits(codec: Seq<u8>, id: Seq<u8>, suffix: Seq<u8>) -> bool {
    codec.len() < 128 && id.len() == ID_LENGTH && suffix.len() < 256
}

/// The header of a segment file: the magic number, the codec name behind
/// its length, the format version, the segment id, and the suffix behind
/// its length.
pub open spec fn index_header(codec: Seq<u8>, version: i32, id: Seq<u8>, suffix: Seq<u8>) -> Seq<
    u8,
> {
    int_bytes(bits32(CODEC_MAGIC)) + vint_bytes(codec.len() as u32) + codec + int_bytes(
        bits32(version),
    ) + id + seq![suffix.len() as u8] + suffix
}

/// What a footer starts with: its magic number and the algorithm id 0.
pub open spec fn footer_lead() -> Seq<u8> {
    int_bytes(bits32(FOOTER_MAGIC)) + int_bytes(0)
}

/// The footer of a file whose bytes so far are `content`: the lead, then
/// the checksum of everything before the checksum itself, in eight bytes.
pub open spec fn footer(content: Seq<u8>) -> Seq<u8> {
    footer_lead() + long_bytes(crc32_of(content + footer_lead()) as u64)
}

/// Appends the header of a segment file to `out`. Fails with
/// `IllegalArgument`, and writes nothing, exactly when the parts do not fit.
pub fn write_index_header(
    out: &mut ByteOutput,
    codec: &str,
    version: i32,
    id: &[u8],
    suffix: &str,
) -> (r: Result<(), Error>)
    ensures
        header_fits(encode_utf8(codec@), id@, encode_utf8(suffix@)) ==> r is Ok && final(out)@ == old(out)@ + index_header(encode_utf8(codec@), version, id@, encode_utf8(suffix@)),
        !header_fits(encode_utf8(codec@), id@, encode_utf8(suffix@)) ==> r is Err && r->Err_0
            == Error::IllegalArgument && final(out)@ == old(out)@,
{
    let codec_bytes = codec.as_bytes();
    let suffix_bytes = suffix.as_bytes();
    if codec_bytes.len() >= 128 || id.len() != ID_LENGTH || suffix_bytes.len() >= 256 {
        return Err(Error::IllegalArgument);
    }
    out.write_int(CODEC_MAGIC);
    out.write_vint(codec_bytes.len() as i32);
    out.write_bytes(codec_bytes);
    out.write_int(version);
    out.write_bytes(id);
    out.write_byte(suffix_bytes.len() as u8);
    out.write_bytes(suffix_bytes);
    assert(final(out)@ =~= old(out)@ + index_header(
        encode_utf8(codec@),
        version,
        id@,
        encode_utf8(suffix@),
    ));
    Ok(())
}

/// Appends the footer to `out`: the checksum covers all that `out` held
/// and the footer's own lead.
pub fn write_footer(out: &mut ByteOutput)
    ensures
        final(out)@ == old(out)@ + footer(old(out)@),
{
    out.write_int(FOOTER_MAGIC);
    out.write_int(0);
    assert(out@ =~= old(out)@ + footer_lead());
    let sum = crc32(out.as_slice());
    out.write_long_bits(sum as u64);
    assert(final(out)@ =~= old(out)@ + footer(old(out)@));
}

} // verus!
