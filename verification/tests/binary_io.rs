use unciv::{
    read_be16, read_be32, read_byte, read_le16, read_le32, write_be16, write_be32, write_byte,
    write_le16, write_le32, ByteReader, ByteWriter, ZfsError,
};

#[test]
fn reads_a_byte_and_advances() {
    let mut reader = ByteReader::new(vec![0xab, 0xcd]);
    assert_eq!(read_byte(&mut reader), Ok(0xab));
    assert_eq!(reader.position(), 1);
    assert_eq!(read_byte(&mut reader), Ok(0xcd));
    assert_eq!(reader.position(), 2);
}

#[test]
fn reads_little_endian_values() {
    let mut reader = ByteReader::new(vec![0x34, 0x12, 0x78, 0x56, 0x34, 0x12]);
    assert_eq!(read_le16(&mut reader), Ok(0x1234));
    assert_eq!(read_le32(&mut reader), Ok(0x1234_5678));
    assert_eq!(reader.position(), 6);
}

#[test]
fn reads_big_endian_values() {
    let mut reader = ByteReader::new(vec![0x12, 0x34, 0x12, 0x34, 0x56, 0x78]);
    assert_eq!(read_be16(&mut reader), Ok(0x1234));
    assert_eq!(read_be32(&mut reader), Ok(0x1234_5678));
    assert_eq!(reader.position(), 6);
}

#[test]
fn reads_the_largest_values() {
    let mut reader = ByteReader::new(vec![0xff; 12]);
    assert_eq!(read_le16(&mut reader), Ok(u16::MAX));
    assert_eq!(read_be16(&mut reader), Ok(u16::MAX));
    assert_eq!(read_le32(&mut reader), Ok(u32::MAX));
    assert_eq!(read_be32(&mut reader), Ok(u32::MAX));
}

#[test]
fn short_read_fails_and_ends_at_the_end() {
    let mut reader = ByteReader::new(vec![1, 2, 3]);
    assert_eq!(read_le32(&mut reader), Err(ZfsError::ShortRead));
    assert_eq!(reader.position(), 3);
    let mut reader = ByteReader::new(vec![1]);
    assert_eq!(read_be16(&mut reader), Err(ZfsError::ShortRead));
    assert_eq!(read_le16(&mut reader), Err(ZfsError::ShortRead));
    assert_eq!(read_be32(&mut reader), Err(ZfsError::ShortRead));
    let mut reader = ByteReader::new(Vec::new());
    assert_eq!(read_byte(&mut reader), Err(ZfsError::ShortRead));
    assert_eq!(reader.position(), 0);
}

#[test]
fn read_behind_the_end_fails() {
    let mut reader = ByteReader::new(vec![1, 2, 3, 4]);
    reader.seek_to(100);
    assert_eq!(reader.position(), 100);
    assert_eq!(read_byte(&mut reader), Err(ZfsError::ShortRead));
    assert_eq!(reader.position(), 4);
}

#[test]
fn read_exact_returns_the_window() {
    let mut reader = ByteReader::new(vec![10, 11, 12, 13, 14]);
    reader.seek_to(1);
    assert_eq!(reader.read_exact(3), Ok(vec![11, 12, 13]));
    assert_eq!(reader.position(), 4);
    assert_eq!(reader.read_exact(2), Err(ZfsError::ShortRead));
    assert_eq!(reader.position(), 5);
}

#[test]
fn reading_nothing_always_succeeds() {
    let mut reader = ByteReader::new(vec![1, 2]);
    reader.seek_to(50);
    assert_eq!(reader.read_exact(0), Ok(Vec::new()));
    assert_eq!(reader.position(), 50);
}

#[test]
fn skip_moves_forward_or_fails() {
    let mut reader = ByteReader::new(vec![1, 2, 3, 4]);
    assert_eq!(reader.skip(3), Ok(()));
    assert_eq!(read_byte(&mut reader), Ok(4));
    reader.seek_to(u64::MAX - 1);
    assert_eq!(reader.skip(1), Ok(()));
    assert_eq!(reader.position(), u64::MAX);
    assert_eq!(reader.skip(1), Err(ZfsError::SeekFailure));
    assert_eq!(reader.position(), u64::MAX);
}

#[test]
fn writes_each_width_and_order() {
    let mut writer = ByteWriter::new();
    assert_eq!(write_byte(0x01, &mut writer), Ok(()));
    assert_eq!(write_be16(0x0203, &mut writer), Ok(()));
    assert_eq!(write_le16(0x0203, &mut writer), Ok(()));
    assert_eq!(write_be32(0x0405_0607, &mut writer), Ok(()));
    assert_eq!(write_le32(0x0405_0607, &mut writer), Ok(()));
    assert_eq!(
        writer.buf,
        vec![0x01, 0x02, 0x03, 0x03, 0x02, 0x04, 0x05, 0x06, 0x07, 0x07, 0x06, 0x05, 0x04]
    );
}

#[test]
fn short_write_keeps_what_fits() {
    let mut writer = ByteWriter::with_limit(3);
    assert_eq!(write_le16(0xbbaa, &mut writer), Ok(()));
    assert_eq!(write_le32(0x4433_2211, &mut writer), Err(ZfsError::ShortWrite));
    assert_eq!(writer.buf, vec![0xaa, 0xbb, 0x11]);
    assert_eq!(write_byte(9, &mut writer), Err(ZfsError::ShortWrite));
    assert_eq!(write_be16(9, &mut writer), Err(ZfsError::ShortWrite));
    assert_eq!(write_be32(9, &mut writer), Err(ZfsError::ShortWrite));
    assert_eq!(writer.buf, vec![0xaa, 0xbb, 0x11]);
    assert_eq!(writer.limit, 3);
}

#[test]
fn written_values_read_back() {
    let mut writer = ByteWriter::new();
    write_le16(0xbeef, &mut writer).unwrap();
    write_be16(0xbeef, &mut writer).unwrap();
    write_le32(0xdead_beef, &mut writer).unwrap();
    write_be32(0xdead_beef, &mut writer).unwrap();
    write_byte(0x7f, &mut writer).unwrap();
    let mut reader = ByteReader::new(writer.buf);
    assert_eq!(read_le16(&mut reader), Ok(0xbeef));
    assert_eq!(read_be16(&mut reader), Ok(0xbeef));
    assert_eq!(read_le32(&mut reader), Ok(0xdead_beef));
    assert_eq!(read_be32(&mut reader), Ok(0xdead_beef));
    assert_eq!(read_byte(&mut reader), Ok(0x7f));
    assert_eq!(read_byte(&mut reader), Err(ZfsError::ShortRead));
}

#[test]
fn error_messages_differ() {
    assert_eq!(ZfsError::InvalidSignature.message(), "invalid signature");
    assert_eq!(ZfsError::UnknownPixelFormat.message(), "unknown pixel format");
    assert_eq!(ZfsError::ShortRead.message(), "unexpected end of data");
    assert_eq!(ZfsError::ShortWrite.message(), "sink is full");
    assert_eq!(ZfsError::SeekFailure.message(), "position out of range");
}
