use segment_core::codec_util::{write_footer, write_index_header};
use segment_core::data_output::ByteOutput;
use segment_core::error::Error;
use segment_core::norms_consumer::{
    FieldInfo, Lucene53NormsConsumer, NormValues, SegmentWriteState,
};

fn state(max_doc: i32) -> SegmentWriteState {
    SegmentWriteState {
        segment_name: String::from("_0"),
        segment_suffix: String::from("sfx"),
        segment_id: (1u8..=16).collect(),
        max_doc,
    }
}

fn field(name: &str, number: u32) -> FieldInfo {
    FieldInfo { name: String::from(name), number }
}

fn header(codec: &str) -> Vec<u8> {
    let mut expected = vec![0x3f, 0xd7, 0x6c, 0x17, codec.len() as u8];
    expected.extend_from_slice(codec.as_bytes());
    expected.extend_from_slice(&[0, 0, 0, 0]);
    expected.extend(1u8..=16);
    expected.push(3);
    expected.extend_from_slice(b"sfx");
    expected
}

fn footer(content: &[u8]) -> Vec<u8> {
    let mut lead = content.to_vec();
    lead.extend_from_slice(&[0xc0, 0x28, 0x93, 0xe8, 0, 0, 0, 0]);
    let sum = crc::Crc::<u32>::new(&crc::CRC_32_ISO_HDLC).checksum(&lead);
    let mut expected = vec![0xc0, 0x28, 0x93, 0xe8, 0, 0, 0, 0];
    expected.extend_from_slice(&(sum as u64).to_be_bytes());
    expected
}

fn finished(consumer: Lucene53NormsConsumer, meta_body: &[u8], data_body: &[u8]) {
    let files = consumer.finish();
    let mut meta = header("NormsMeta");
    meta.extend_from_slice(meta_body);
    meta.extend_from_slice(&[0xff, 0xff, 0xff, 0xff, 0x0f]);
    let meta_footer = footer(&meta);
    meta.extend_from_slice(&meta_footer);
    assert_eq!(files.meta, meta);
    let mut data = header("NormsData");
    data.extend_from_slice(data_body);
    let data_footer = footer(&data);
    data.extend_from_slice(&data_footer);
    assert_eq!(files.data, data);
}

fn consumer(max_doc: i32) -> Lucene53NormsConsumer {
    Lucene53NormsConsumer::new(&state(max_doc), "NormsData", "NormsMeta").unwrap()
}

#[test]
fn vint_takes_seven_bits_a_byte() {
    let mut out = ByteOutput::new();
    out.write_vint(0);
    out.write_vint(127);
    out.write_vint(128);
    out.write_vint(300);
    out.write_vint(-1);
    assert_eq!(out.file_pointer(), 11);
    assert_eq!(
        out.into_bytes(),
        vec![0, 0x7f, 0x80, 0x01, 0xac, 0x02, 0xff, 0xff, 0xff, 0xff, 0x0f]
    );
}

#[test]
fn fixed_widths_are_big_endian() {
    let mut out = ByteOutput::new();
    out.write_short(-2);
    out.write_int(0x0102_0304);
    out.write_long(-1);
    out.write_long_bits(0x0102_0304_0506_0708);
    out.write_bytes(&[9, 9]);
    assert_eq!(
        out.as_slice(),
        &[
            0xff, 0xfe, 1, 2, 3, 4, 0xff, 0xff, 0xff, 0xff, 0xff, 0xff, 0xff, 0xff, 1, 2, 3, 4, 5,
            6, 7, 8, 9, 9
        ][..]
    );
}

#[test]
fn header_lists_its_parts() {
    let mut out = ByteOutput::new();
    let id: Vec<u8> = (1u8..=16).collect();
    assert_eq!(write_index_header(&mut out, "NormsData", 0, &id, "sfx"), Ok(()));
    assert_eq!(out.into_bytes(), header("NormsData"));
}

#[test]
fn header_rejects_parts_that_do_not_fit() {
    let id: Vec<u8> = (1u8..=16).collect();
    let long_name = "x".repeat(128);
    let long_suffix = "y".repeat(256);
    let mut out = ByteOutput::new();
    assert_eq!(
        write_index_header(&mut out, &long_name, 0, &id, ""),
        Err(Error::IllegalArgument)
    );
    assert_eq!(
        write_index_header(&mut out, "c", 0, &id, &long_suffix),
        Err(Error::IllegalArgument)
    );
    assert_eq!(
        write_index_header(&mut out, "c", 0, &id[..15], ""),
        Err(Error::IllegalArgument)
    );
    assert_eq!(out.file_pointer(), 0);
    let mut bad = state(1);
    bad.segment_id.pop();
    assert!(Lucene53NormsConsumer::new(&bad, "NormsData", "NormsMeta").is_err());
}

#[test]
fn footer_holds_the_checksum() {
    let mut out = ByteOutput::new();
    out.write_bytes(b"123456789");
    write_footer(&mut out);
    let bytes = out.into_bytes();
    assert_eq!(bytes.len(), 9 + 16);
    assert_eq!(&bytes[9..], &footer(b"123456789")[..]);
    assert_ne!(&bytes[17..], &[0u8; 8][..]);
}

#[test]
fn checksum_is_the_crc32_of_zlib() {
    assert_eq!(crc::Crc::<u32>::new(&crc::CRC_32_ISO_HDLC).checksum(b"123456789"), 0xcbf4_3926);
}

#[test]
fn width_is_the_narrowest_that_fits() {
    assert_eq!(Lucene53NormsConsumer::byte_width(-128, 127), 1);
    assert_eq!(Lucene53NormsConsumer::byte_width(-128, 200), 2);
    assert_eq!(Lucene53NormsConsumer::byte_width(-129, 0), 2);
    assert_eq!(Lucene53NormsConsumer::byte_width(-32768, 32767), 2);
    assert_eq!(Lucene53NormsConsumer::byte_width(0, 32768), 4);
    assert_eq!(Lucene53NormsConsumer::byte_width(i32::MIN as i64, i32::MAX as i64), 4);
    assert_eq!(Lucene53NormsConsumer::byte_width(0, i32::MAX as i64 + 1), 8);
    assert_eq!(Lucene53NormsConsumer::byte_width(i64::MIN, i64::MAX), 8);
}

#[test]
fn constant_field_is_one_record() {
    let mut c = consumer(4);
    let mut values = NormValues::new(vec![42, 42, 42, 42]);
    assert_eq!(c.add_norms_field(&field("title", 3), &mut values), Ok(()));
    assert_eq!(values.next(), Some(42));
    finished(c, &[3, 0, 0, 0, 0, 0, 0, 0, 0, 42], &[]);
}

#[test]
fn small_values_take_one_byte_each() {
    let mut c = consumer(3);
    let mut values = NormValues::new(vec![-128, 5, 127]);
    assert_eq!(c.add_norms_field(&field("body", 1), &mut values), Ok(()));
    finished(c, &[1, 1, 0, 0, 0, 0, 0, 0, 0, 38], &[0x80, 5, 0x7f]);
}

#[test]
fn a_value_of_200_forces_two_bytes() {
    let mut c = consumer(4);
    let mut values = NormValues::new(vec![-128, 5, 127, 200]);
    assert_eq!(c.add_norms_field(&field("body", 1), &mut values), Ok(()));
    finished(
        c,
        &[1, 2, 0, 0, 0, 0, 0, 0, 0, 38],
        &[0xff, 0x80, 0, 5, 0, 0x7f, 0, 200],
    );
}

#[test]
fn wide_values_take_four_or_eight_bytes() {
    let mut c = consumer(2);
    let mut four = NormValues::new(vec![70_000, -1]);
    assert_eq!(c.add_norms_field(&field("a", 0), &mut four), Ok(()));
    let mut eight = NormValues::new(vec![1 << 40, 2]);
    assert_eq!(c.add_norms_field(&field("b", 200), &mut eight), Ok(()));
    finished(
        c,
        &[
            0, 4, 0, 0, 0, 0, 0, 0, 0, 38, 0xc8, 0x01, 8, 0, 0, 0, 0, 0, 0, 0, 46,
        ],
        &[
            0, 1, 0x11, 0x70, 0xff, 0xff, 0xff, 0xff, 0, 0, 1, 0, 0, 0, 0, 0, 0, 0, 0, 0, 0, 0, 0,
            2,
        ],
    );
}

#[test]
fn count_mismatch_leaves_earlier_fields_intact() {
    let mut c = consumer(3);
    let mut good = NormValues::new(vec![1, 2, 3]);
    assert_eq!(c.add_norms_field(&field("good", 1), &mut good), Ok(()));
    let mut short = NormValues::new(vec![1, 2]);
    assert_eq!(
        c.add_norms_field(&field("short", 2), &mut short),
        Err(Error::CountMismatch { field: String::from("short"), expected: 3, got: 2 })
    );
    assert_eq!(short.next(), Some(1));
    finished(c, &[1, 1, 0, 0, 0, 0, 0, 0, 0, 38, 2], &[1, 2, 3]);
}

#[test]
fn add_constant_and_add_byte_write_their_records() {
    let mut c = consumer(2);
    c.add_constant(-1);
    let mut values = NormValues::new(vec![9, 300]);
    assert_eq!(values.next(), Some(9));
    c.add_byte(0, 300, &mut values);
    assert_eq!(values.next(), Some(9));
    assert_eq!(values.next(), Some(300));
    assert_eq!(values.next(), None);
    assert_eq!(values.next(), None);
    values.reset();
    assert_eq!(values.next(), Some(9));
    finished(
        c,
        &[0, 0xff, 0xff, 0xff, 0xff, 0xff, 0xff, 0xff, 0xff, 2, 0, 0, 0, 0, 0, 0, 0, 38],
        &[1, 0x2c],
    );
}

#[test]
fn empty_segment_writes_an_empty_field() {
    let mut c = consumer(0);
    let mut values = NormValues::new(Vec::new());
    assert_eq!(c.add_norms_field(&field("none", 5), &mut values), Ok(()));
    finished(c, &[5, 1, 0, 0, 0, 0, 0, 0, 0, 38], &[]);
}

#[test]
fn negative_document_count_matches_nothing() {
    let mut c = consumer(-1);
    let mut values = NormValues::new(Vec::new());
    assert_eq!(
        c.add_norms_field(&field("f", 0), &mut values),
        Err(Error::CountMismatch { field: String::from("f"), expected: -1, got: 0 })
    );
    finished(c, &[0], &[]);
}
