use memmap::{Mmap, MmapMut};
use segment_core::data_output::ByteOutput;
use segment_core::error::Error;
use segment_core::mmap_index_input::{MmapIndexInput, ReadOnlySource};
use std::sync::Arc;

fn mapping(bytes: &[u8]) -> Arc<Mmap> {
    let mut map = MmapMut::map_anon(bytes.len()).unwrap();
    map.copy_from_slice(bytes);
    Arc::new(map.make_read_only().unwrap())
}

fn sample() -> Vec<u8> {
    let mut out = ByteOutput::new();
    out.write_byte(b'a');
    out.write_short(0x7F_i16);
    out.write_long(567_890);
    out.write_int(1_234_567);
    out.write_byte(b'b');
    out.into_bytes()
}

fn input(bytes: &[u8]) -> MmapIndexInput {
    MmapIndexInput::from_mapping(Some(mapping(bytes))).unwrap()
}

#[test]
fn test_mmap_index_input() {
    let mmap_input = input(&sample());
    let mut slice = mmap_input.slice("from3", 3, 13).unwrap();
    assert_eq!(slice.next_long().unwrap(), 567_890_i64);
    assert_eq!(slice.next_int().unwrap(), 1_234_567_i32);
    assert!(slice.next_int().is_err());
}

#[test]
fn test_mmap_random_access_input() {
    let mmap_input = input(&sample());
    let random_input = mmap_input.random_access_slice(1, 15).unwrap();
    assert_eq!(0x7f_i16, random_input.read_short(0).unwrap());
    assert_eq!(567_890, random_input.read_long(2).unwrap());
    assert_eq!(1_234_567, random_input.read_int(10).unwrap());
    assert_eq!(b'b', random_input.read_byte(14).unwrap());
    assert_eq!(1_234_567, random_input.read_int(10).unwrap());

    assert!(random_input.read_int(15).is_err());
}

#[test]
fn sample_is_written_big_endian() {
    assert_eq!(
        sample(),
        vec![b'a', 0, 0x7f, 0, 0, 0, 0, 0, 0x08, 0xaa, 0x52, 0, 0x12, 0xd6, 0x87, b'b']
    );
}

#[test]
fn source_covers_the_whole_mapping() {
    let bytes: Vec<u8> = (0u8..20).collect();
    let source = ReadOnlySource::from(mapping(&bytes));
    assert_eq!(source.len(), 20);
    assert_eq!(source.as_slice(), &bytes[..]);
    let copy = source.clone();
    assert_eq!(copy.as_slice(), &bytes[..]);
}

#[test]
fn range_is_the_subrange() {
    let bytes: Vec<u8> = (0u8..20).collect();
    let source = ReadOnlySource::from(mapping(&bytes));
    for offset in 0u64..=20 {
        for len in 0u64..=(20 - offset) {
            let view = source.range(offset, len).unwrap();
            assert_eq!(view.len(), len);
            assert_eq!(view.as_slice(), &bytes[offset as usize..(offset + len) as usize]);
        }
    }
}

#[test]
fn range_beyond_the_end_fails() {
    let bytes: Vec<u8> = (0u8..20).collect();
    let source = ReadOnlySource::from(mapping(&bytes));
    assert_eq!(source.range(0, 21).err(), Some(Error::IllegalArgument));
    assert_eq!(source.range(20, 1).err(), Some(Error::IllegalArgument));
    assert_eq!(source.range(21, 0).err(), Some(Error::IllegalArgument));
    assert_eq!(source.range(u64::MAX, 2).err(), Some(Error::IllegalArgument));
    assert!(source.range(20, 0).is_ok());
}

#[test]
fn slice_checks_both_ends() {
    let bytes: Vec<u8> = (0u8..20).collect();
    let source = ReadOnlySource::from(mapping(&bytes));
    assert_eq!(source.slice(3, 7).unwrap().as_slice(), &bytes[3..7]);
    assert_eq!(source.slice(7, 3).err(), Some(Error::IllegalArgument));
    assert_eq!(source.slice(3, 21).err(), Some(Error::IllegalArgument));
    assert_eq!(source.slice_from(5).unwrap().as_slice(), &bytes[5..]);
    assert_eq!(source.slice_from(21).err(), Some(Error::IllegalArgument));
    assert_eq!(source.slice_to(5).unwrap().as_slice(), &bytes[..5]);
    assert_eq!(source.slice_to(21).err(), Some(Error::IllegalArgument));
}

#[test]
fn slice_of_a_slice_is_relative() {
    let bytes: Vec<u8> = (0u8..20).collect();
    let source = ReadOnlySource::from(mapping(&bytes));
    let inner = source.slice(4, 16).unwrap().slice(2, 5).unwrap();
    assert_eq!(inner.as_slice(), &bytes[6..9]);
}

#[test]
fn split_halves_join_to_the_whole() {
    let bytes: Vec<u8> = (0u8..20).collect();
    for addr in 0u64..=20 {
        let source = ReadOnlySource::from(mapping(&bytes));
        let (left, right) = source.split(addr).unwrap();
        assert_eq!(left.len(), addr);
        let mut joined = left.as_slice().to_vec();
        joined.extend_from_slice(right.as_slice());
        assert_eq!(joined, bytes);
    }
    let source = ReadOnlySource::from(mapping(&bytes));
    assert_eq!(source.split(21).err(), Some(Error::IllegalArgument));
}

#[test]
fn cursor_from_a_source_starts_at_its_front() {
    let bytes: Vec<u8> = (0u8..10).collect();
    let source = ReadOnlySource::from(mapping(&bytes)).slice(2, 6).unwrap();
    let mut cursor = MmapIndexInput::from(source);
    assert_eq!(cursor.len(), 4);
    assert_eq!(cursor.file_pointer(), 0);
    assert_eq!(cursor.next_byte(), Ok(2));
    assert_eq!(cursor.read_byte(3), Ok(5));
}

#[test]
fn empty_mapping_is_an_illegal_state() {
    assert_eq!(MmapIndexInput::from_mapping(None).err(), Some(Error::IllegalState));
}

#[test]
fn mapped_length_decides_the_extent() {
    assert_eq!(MmapIndexInput::mapped_length(0, 0, 0), Ok(None));
    assert_eq!(MmapIndexInput::mapped_length(0, 3, 4), Ok(None));
    assert_eq!(MmapIndexInput::mapped_length(10, 0, 0), Ok(Some(10)));
    assert_eq!(MmapIndexInput::mapped_length(10, 4, 0), Ok(Some(6)));
    assert_eq!(MmapIndexInput::mapped_length(10, 4, 6), Ok(Some(6)));
    assert_eq!(MmapIndexInput::mapped_length(10, 4, 7), Err(Error::IllegalArgument));
    assert_eq!(MmapIndexInput::mapped_length(10, usize::MAX, 2), Err(Error::IllegalArgument));
}

#[test]
fn random_reads_are_big_endian_and_leave_the_cursor() {
    let bytes = [0x01u8, 0x02, 0x03, 0x04, 0x05, 0x06, 0x07, 0x08, 0xff, 0xfe];
    let cursor = input(&bytes);
    assert_eq!(cursor.read_byte(0), Ok(0x01));
    assert_eq!(cursor.read_short(0), Ok(0x0102));
    assert_eq!(cursor.read_short(8), Ok(-2));
    assert_eq!(cursor.read_int(1), Ok(0x0203_0405));
    assert_eq!(cursor.read_int(6), Ok(0x0708_fffe));
    assert_eq!(cursor.read_long(0), Ok(0x0102_0304_0506_0708));
    assert_eq!(cursor.read_long(2), Ok(0x0304_0506_0708_fffe));
    assert_eq!(cursor.file_pointer(), 0);
    for p in 0..bytes.len() {
        assert_eq!(cursor.read_byte(p as i64), Ok(bytes[p]));
        if p + 4 <= bytes.len() {
            let expected = i32::from_be_bytes([bytes[p], bytes[p + 1], bytes[p + 2], bytes[p + 3]]);
            assert_eq!(cursor.read_int(p as i64), Ok(expected));
        }
    }
}

#[test]
fn random_reads_out_of_bounds_fail() {
    let bytes = [0u8; 10];
    let cursor = input(&bytes);
    assert_eq!(cursor.read_byte(-1), Err(Error::IllegalArgument));
    assert_eq!(cursor.read_byte(10), Err(Error::IllegalArgument));
    assert_eq!(cursor.read_short(9), Err(Error::IllegalArgument));
    assert_eq!(cursor.read_int(7), Err(Error::IllegalArgument));
    assert_eq!(cursor.read_long(3), Err(Error::IllegalArgument));
    assert_eq!(cursor.read_long(i64::MAX), Err(Error::IllegalArgument));
    assert_eq!(cursor.read_long(2), Ok(0));
}

#[test]
fn seek_moves_within_the_window() {
    let bytes: Vec<u8> = (0u8..10).collect();
    let mut cursor = input(&bytes);
    assert_eq!(cursor.len(), 10);
    assert_eq!(cursor.seek(10), Ok(()));
    assert_eq!(cursor.file_pointer(), 10);
    assert_eq!(cursor.seek(11), Err(Error::IllegalArgument));
    assert_eq!(cursor.seek(-1), Err(Error::IllegalArgument));
    assert_eq!(cursor.file_pointer(), 10);
    assert_eq!(cursor.seek(4), Ok(()));
    assert_eq!(cursor.next_byte(), Ok(4));
    assert_eq!(cursor.next_short(), Ok(0x0506));
    assert_eq!(cursor.file_pointer(), 7);
}

#[test]
fn read_copies_what_is_left() {
    let bytes: Vec<u8> = (0u8..10).collect();
    let mut cursor = input(&bytes);
    let mut buf = vec![0xeeu8; 4];
    assert_eq!(cursor.read(&mut buf), 4);
    assert_eq!(buf, vec![0, 1, 2, 3]);
    assert_eq!(cursor.file_pointer(), 4);
    let mut big = vec![0xeeu8; 8];
    assert_eq!(cursor.read(&mut big), 6);
    assert_eq!(big, vec![4, 5, 6, 7, 8, 9, 0xee, 0xee]);
    assert_eq!(cursor.read(&mut big), 0);
    assert_eq!(big, vec![4, 5, 6, 7, 8, 9, 0xee, 0xee]);
    assert_eq!(cursor.next_byte(), Err(Error::UnexpectedEof));
}

#[test]
fn clone_has_a_position_of_its_own() {
    let bytes: Vec<u8> = (0u8..10).collect();
    let mut cursor = input(&bytes);
    cursor.seek(3).unwrap();
    let mut other = cursor.clone();
    assert_eq!(other.file_pointer(), 3);
    assert_eq!(other.next_byte(), Ok(3));
    assert_eq!(cursor.file_pointer(), 3);
    assert_eq!(cursor.next_byte(), Ok(3));
    assert_eq!(cursor.name(), "MmapIndexInput");
}

#[test]
fn cursor_slices_reject_bad_windows() {
    let bytes: Vec<u8> = (0u8..10).collect();
    let cursor = input(&bytes);
    assert!(cursor.slice("s", -1, 2).is_err());
    assert!(cursor.slice("s", 2, -1).is_err());
    assert!(cursor.slice("s", 5, 6).is_err());
    assert!(cursor.slice("s", i64::MAX, i64::MAX).is_err());
    let window = cursor.slice("s", 5, 5).unwrap();
    assert_eq!(window.len(), 5);
    assert_eq!(window.read_byte(0), Ok(5));
    let inner = window.slice("t", 1, 2).unwrap();
    assert_eq!(inner.read_short(0), Ok(0x0607));
}
