use bitcrust_core::block_header::VarInt;
use bitcrust_core::buffer::{Buffer, EndOfBufferError};
use bitcrust_core::codec::{
    array_32, array_8, bytes_equal, read_bytes, read_compact_bytes, read_compact_size,
    read_i32_le, read_i64_le, read_u16_be, read_u16_le, read_u32_le, read_u64_le, signed_32,
    signed_64, write_compact_size,
};

#[test]
fn integers_are_little_endian() {
    let data = [0x01, 0x02, 0x03, 0x04, 0x05, 0x06, 0x07, 0x08, 0x09];
    assert_eq!(read_u16_le(&data, 0), Ok((0x0201, 2)));
    assert_eq!(read_u16_le(&data, 7), Ok((0x0908, 9)));
    assert_eq!(read_u32_le(&data, 1), Ok((0x05040302, 5)));
    assert_eq!(read_u64_le(&data, 1), Ok((0x0908070605040302, 9)));
    assert_eq!(read_u64_le(&[0xff; 8], 0), Ok((u64::MAX, 8)));
    assert_eq!(read_u32_le(&[0xff; 4], 0), Ok((u32::MAX, 4)));
}

#[test]
fn ports_are_big_endian() {
    assert_eq!(read_u16_be(&[0x20, 0x8D], 0), Ok((8333, 2)));
    assert_eq!(read_u16_be(&[0xff, 0xff], 0), Ok((0xffff, 2)));
}

#[test]
fn signed_integers_are_twos_complement() {
    assert_eq!(read_i32_le(&[0xff, 0xff, 0xff, 0xff], 0), Ok((-1, 4)));
    assert_eq!(read_i32_le(&[0x00, 0x00, 0x00, 0x80], 0), Ok((i32::MIN, 4)));
    assert_eq!(read_i32_le(&[0xff, 0xff, 0xff, 0x7f], 0), Ok((i32::MAX, 4)));
    assert_eq!(read_i64_le(&[0xfe, 0xff, 0xff, 0xff, 0xff, 0xff, 0xff, 0xff], 0), Ok((-2, 8)));
    assert_eq!(read_i64_le(&[0, 0, 0, 0, 0, 0, 0, 0x80], 0), Ok((i64::MIN, 8)));
    assert_eq!(signed_32(0x8000_0001), i32::MIN + 1);
    assert_eq!(signed_32(7), 7);
    assert_eq!(signed_64(u64::MAX), -1);
    assert_eq!(signed_64(0x7fff_ffff_ffff_ffff), i64::MAX);
}

#[test]
fn a_short_read_says_how_many_bytes_are_missing() {
    let data = [1, 2, 3];
    assert_eq!(read_u16_le(&data, 2), Err(1));
    assert_eq!(read_u16_be(&data, 3), Err(2));
    assert_eq!(read_u32_le(&data, 0), Err(1));
    assert_eq!(read_u64_le(&data, 1), Err(6));
    assert_eq!(read_i32_le(&data, 3), Err(4));
    assert_eq!(read_i64_le(&data, 0), Err(5));
    assert_eq!(read_bytes(&data, 1, 5), Err(3));
    assert_eq!(read_bytes(&data, 3, u64::MAX), Err(u64::MAX));
    assert_eq!(read_bytes(&data, 1, 2), Ok((&[2u8, 3][..], 3)));
    assert_eq!(read_bytes(&data, 3, 0), Ok((&[][..], 3)));
}

#[test]
fn compact_sizes_decode_in_every_form() {
    assert_eq!(read_compact_size(&[0x00], 0), Ok((0, 1)));
    assert_eq!(read_compact_size(&[0xfc], 0), Ok((0xfc, 1)));
    assert_eq!(read_compact_size(&[0xfd, 0xfd, 0x00], 0), Ok((0xfd, 3)));
    assert_eq!(read_compact_size(&[0xfd, 0x01, 0x00], 0), Ok((1, 3)));
    assert_eq!(read_compact_size(&[0xfe, 0x00, 0x00, 0x01, 0x00], 0), Ok((0x10000, 5)));
    assert_eq!(read_compact_size(&[0xfe, 0x05, 0x00, 0x00, 0x00], 0), Ok((5, 5)));
    assert_eq!(
        read_compact_size(&[0xff, 0x00, 0x00, 0x00, 0x00, 0x01, 0x00, 0x00, 0x00], 0),
        Ok((0x1_0000_0000, 9))
    );
    assert_eq!(read_compact_size(&[0xff; 9], 0), Ok((u64::MAX, 9)));
    assert_eq!(read_compact_size(&[0x09, 0xfd, 0x34, 0x12, 0x07], 1), Ok((0x1234, 4)));
}

#[test]
fn a_short_compact_size_says_how_many_bytes_are_missing() {
    assert_eq!(read_compact_size(&[], 0), Err(1));
    assert_eq!(read_compact_size(&[0xfd], 0), Err(2));
    assert_eq!(read_compact_size(&[0xfd, 0x01], 0), Err(1));
    assert_eq!(read_compact_size(&[0xfe, 0x01], 0), Err(3));
    assert_eq!(read_compact_size(&[0xff, 0x01, 0x02], 0), Err(6));
    assert_eq!(read_compact_bytes(&[0x03, 0x01], 0), Err(2));
    assert_eq!(read_compact_bytes(&[0x02, 0x01, 0x02, 0x03], 0), Ok((&[1u8, 2][..], 3)));
    assert_eq!(read_compact_bytes(&[0x00], 0), Ok((&[][..], 1)));
}

#[test]
fn compact_sizes_are_written_in_shortest_form() {
    assert_eq!(write_compact_size(0), vec![0x00]);
    assert_eq!(write_compact_size(0xfc), vec![0xfc]);
    assert_eq!(write_compact_size(0xfd), vec![0xfd, 0xfd, 0x00]);
    assert_eq!(write_compact_size(0xffff), vec![0xfd, 0xff, 0xff]);
    assert_eq!(write_compact_size(0x10000), vec![0xfe, 0x00, 0x00, 0x01, 0x00]);
    assert_eq!(write_compact_size(0xffff_ffff), vec![0xfe, 0xff, 0xff, 0xff, 0xff]);
    assert_eq!(
        write_compact_size(0x1_0000_0000),
        vec![0xff, 0x00, 0x00, 0x00, 0x00, 0x01, 0x00, 0x00, 0x00]
    );
    assert_eq!(
        write_compact_size(0x0102_0304_0506_0708),
        vec![0xff, 0x08, 0x07, 0x06, 0x05, 0x04, 0x03, 0x02, 0x01]
    );
    assert_eq!(VarInt::new(0x1234).encode(), vec![0xfd, 0x34, 0x12]);
    assert_eq!(VarInt::new(0x1234).value, 0x1234);
}

#[test]
fn a_written_compact_size_is_read_back() {
    let samples = [
        0u64,
        1,
        0xfc,
        0xfd,
        0xfe,
        0xff,
        0x100,
        0xffff,
        0x1_0000,
        0xffff_ffff,
        0x1_0000_0000,
        0x1234_5678_9abc_def0,
        u64::MAX,
    ];
    for n in samples.iter() {
        let mut bytes = write_compact_size(*n);
        let len = bytes.len();
        bytes.push(0xab);
        assert_eq!(read_compact_size(&bytes, 0), Ok((*n, len)));
    }
}

#[test]
fn byte_strings_are_compared_byte_by_byte() {
    assert!(bytes_equal(&[], &[]));
    assert!(bytes_equal(&[1, 2], &[1, 2]));
    assert!(!bytes_equal(&[1, 2], &[1, 3]));
    assert!(!bytes_equal(&[1, 2], &[1]));
    let mut bytes = [0u8; 32];
    bytes[5] = 9;
    assert_eq!(array_32(&bytes), bytes);
    assert_eq!(array_8(&[1, 2, 3, 4, 5, 6, 7, 8]), [1, 2, 3, 4, 5, 6, 7, 8]);
}

#[test]
fn a_buffer_moves_its_cursor_past_what_it_reads() {
    let data = [0x2a, 0, 0, 0, 0xff, 0xff, 0xff, 0xff, 0x02, 7, 8, 1, 2, 3, 4, 5, 6, 7, 8, 9];
    let mut buffer = Buffer::new(&data);
    let start = buffer;
    assert_eq!(buffer.len(), 20);
    assert_eq!(buffer.parse_u32(), Ok(42));
    assert_eq!(buffer.parse_i32(), Ok(-1));
    assert_eq!(buffer.parse_compact_size_bytes(), Ok(&[7u8, 8][..]));
    assert_eq!(buffer.position(), 11);
    assert_eq!(buffer.consumed_since(start), &data[..11]);
    assert_eq!(buffer.parse_u64(), Ok(0x0807060504030201));
    assert_eq!(buffer.parse_compact_size(), Ok(9));
    assert_eq!(buffer.len(), 0);
    assert_eq!(buffer.parse_u32(), Err(EndOfBufferError));
    assert_eq!(buffer.parse_bytes(1), Err(EndOfBufferError));
    assert_eq!(buffer.parse_bytes(0), Ok(&[][..]));
    assert_eq!(buffer.whole(), &data);
    let mut buffer = Buffer::new(&data[..8]);
    assert_eq!(buffer.parse_i64(), Ok(-4294967254));
}
