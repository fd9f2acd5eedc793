use unciv::zfs::{decode_name, trim_trailing_nul};
use unciv::{ByteReader, RimFormat, ZfsEntry, ZfsError, ZfsFile, ZfsHeader, ZFS_SIGNATURE};

fn put(buf: &mut Vec<u8>, at: usize, bytes: &[u8]) {
    if buf.len() < at + bytes.len() {
        buf.resize(at + bytes.len(), 0xcc);
    }
    buf[at..at + bytes.len()].copy_from_slice(bytes);
}

fn header(version: u32, name_len: u32, per_table: u32, count: u32, table: u32) -> Vec<u8> {
    let mut bytes = Vec::new();
    bytes.extend_from_slice(b"ZFS3");
    for field in [version, name_len, per_table, count, 0xdddd_dddd, table] {
        bytes.extend_from_slice(&field.to_le_bytes());
    }
    bytes
}

fn entry(name: &[u8], name_len: usize, offset: u32, size: u32, time: u32, flags: u32) -> Vec<u8> {
    let mut bytes = name.to_vec();
    bytes.resize(name_len, 0);
    for field in [offset, 0xeeee_eeee, size, time, flags] {
        bytes.extend_from_slice(&field.to_le_bytes());
    }
    bytes
}

fn names(zfs: &ZfsFile) -> Vec<String> {
    zfs.files.iter().map(|e| e.name.clone()).collect()
}

#[test]
fn signature_is_zfs3() {
    assert_eq!(ZFS_SIGNATURE.to_le_bytes(), *b"ZFS3");
}

#[test]
fn lists_the_declared_entries() {
    let mut bytes = header(1, 8, 4, 2, 28);
    put(&mut bytes, 28, &0u32.to_le_bytes());
    put(&mut bytes, 32, &entry(b"a.txt", 8, 100, 10, 1000, 7));
    put(&mut bytes, 60, &entry(b"pic.rim", 8, 110, 20, 2000, 0xffff_ffff));
    let mut reader = ByteReader::new(bytes);
    let zfs = ZfsFile::from_stream(&mut reader).unwrap();
    assert_eq!(zfs.version, 1);
    assert_eq!(zfs.max_filename_len, 8);
    assert_eq!(zfs.files.len(), 2);
    assert_eq!(zfs.files[0].name, "a.txt");
    assert_eq!(zfs.files[0].offset, 100);
    assert_eq!(zfs.files[0].size, 10);
    assert_eq!(zfs.files[0].timestamp, 1000);
    assert_eq!(zfs.files[0].flags, 7);
    assert_eq!(zfs.files[1].name, "pic.rim");
    assert_eq!(zfs.files[1].offset, 110);
    assert_eq!(zfs.files[1].size, 20);
    assert_eq!(zfs.files[1].timestamp, 2000);
    assert_eq!(zfs.files[1].flags, 0xffff_ffff);
    assert_eq!(reader.position(), 88);
}

#[test]
fn stops_at_the_first_empty_slot() {
    let mut bytes = header(1, 8, 10, 5, 28);
    put(&mut bytes, 28, &0u32.to_le_bytes());
    put(&mut bytes, 32, &entry(b"one", 8, 1, 1, 1, 1));
    put(&mut bytes, 60, &entry(b"two", 8, 2, 2, 2, 2));
    put(&mut bytes, 88, &entry(b"\0hidden", 8, 3, 3, 3, 3));
    put(&mut bytes, 116, &entry(b"four", 8, 4, 4, 4, 4));
    let mut reader = ByteReader::new(bytes);
    let zfs = ZfsFile::from_stream(&mut reader).unwrap();
    assert_eq!(names(&zfs), vec!["one", "two"]);
    assert_eq!(reader.position(), 96);
}

#[test]
fn never_lists_more_than_declared() {
    let mut bytes = header(1, 8, 10, 1, 28);
    put(&mut bytes, 28, &0u32.to_le_bytes());
    put(&mut bytes, 32, &entry(b"one", 8, 1, 1, 1, 1));
    put(&mut bytes, 60, &entry(b"two", 8, 2, 2, 2, 2));
    let mut reader = ByteReader::new(bytes);
    let zfs = ZfsFile::from_stream(&mut reader).unwrap();
    assert_eq!(names(&zfs), vec!["one"]);
}

#[test]
fn no_entries_declared() {
    let mut bytes = header(3, 0, 1, 0, 28);
    put(&mut bytes, 28, &0u32.to_le_bytes());
    let mut reader = ByteReader::new(bytes);
    let zfs = ZfsFile::from_stream(&mut reader).unwrap();
    assert_eq!(zfs.version, 3);
    assert_eq!(zfs.files.len(), 0);
    assert_eq!(reader.position(), 32);
}

#[test]
fn follows_the_chain_of_tables() {
    let mut bytes = header(1, 8, 2, 5, 40);
    put(&mut bytes, 40, &300u32.to_le_bytes());
    put(&mut bytes, 44, &entry(b"e0", 8, 10, 1, 100, 0));
    put(&mut bytes, 72, &entry(b"e1", 8, 11, 2, 101, 1));
    put(&mut bytes, 100, &entry(b"trap", 8, 99, 99, 99, 99));
    put(&mut bytes, 300, &150u32.to_le_bytes());
    put(&mut bytes, 304, &entry(b"e2", 8, 12, 3, 102, 2));
    put(&mut bytes, 332, &entry(b"e3", 8, 13, 4, 103, 3));
    put(&mut bytes, 360, &entry(b"trap", 8, 99, 99, 99, 99));
    put(&mut bytes, 150, &0u32.to_le_bytes());
    put(&mut bytes, 154, &entry(b"e4", 8, 14, 5, 104, 4));
    let mut reader = ByteReader::new(bytes);
    let zfs = ZfsFile::from_stream(&mut reader).unwrap();
    assert_eq!(names(&zfs), vec!["e0", "e1", "e2", "e3", "e4"]);
    let offsets: Vec<usize> = zfs.files.iter().map(|e| e.offset).collect();
    assert_eq!(offsets, vec![10, 11, 12, 13, 14]);
    let flags: Vec<u32> = zfs.files.iter().map(|e| e.flags).collect();
    assert_eq!(flags, vec![0, 1, 2, 3, 4]);
    assert_eq!(reader.position(), 154 + 28);
}

#[test]
fn a_full_last_table_still_reads_the_next_pointer() {
    let mut bytes = header(1, 4, 1, 1, 28);
    put(&mut bytes, 28, &5000u32.to_le_bytes());
    put(&mut bytes, 32, &entry(b"only", 4, 0, 0, 0, 0));
    let mut reader = ByteReader::new(bytes.clone());
    assert!(matches!(ZfsFile::from_stream(&mut reader), Err(ZfsError::ShortRead)));
    put(&mut bytes, 28, &0u32.to_le_bytes());
    let mut reader = ByteReader::new(bytes);
    let zfs = ZfsFile::from_stream(&mut reader).unwrap();
    assert_eq!(names(&zfs), vec!["only"]);
    assert_eq!(reader.position(), 4);
}

#[test]
fn zfs_signature_mismatch() {
    let mut bytes = header(1, 8, 4, 0, 28);
    bytes[3] = b'4';
    put(&mut bytes, 28, &0u32.to_le_bytes());
    let mut reader = ByteReader::new(bytes);
    assert!(matches!(ZfsFile::from_stream(&mut reader), Err(ZfsError::InvalidSignature)));
    assert_eq!(reader.position(), 4);
    let mut reader = ByteReader::new(b"RIMF".to_vec());
    assert!(matches!(ZfsHeader::from_stream(&mut reader), Err(ZfsError::InvalidSignature)));
}

#[test]
fn header_fields_in_order() {
    let mut reader = ByteReader::new(header(2, 16, 100, 7, 28));
    let h = ZfsHeader::from_stream(&mut reader).unwrap();
    assert_eq!(
        h,
        ZfsHeader { version: 2, max_filename_len: 16, files_per_table: 100, num_files: 7, filetable_offset: 28 }
    );
    assert_eq!(reader.position(), 28);
}

#[test]
fn tables_without_entries_are_refused() {
    let mut bytes = header(1, 8, 0, 0, 28);
    put(&mut bytes, 28, &0u32.to_le_bytes());
    let mut reader = ByteReader::new(bytes);
    assert!(matches!(ZfsFile::from_stream(&mut reader), Err(ZfsError::EmptyTable)));
    let mut bytes = header(1, 8, 0, 3, 28);
    put(&mut bytes, 28, &0u32.to_le_bytes());
    put(&mut bytes, 32, &entry(b"one", 8, 1, 1, 1, 1));
    let mut reader = ByteReader::new(bytes);
    assert!(matches!(ZfsFile::from_stream(&mut reader), Err(ZfsError::EmptyTable)));
}

#[test]
fn entries_without_a_name_field_are_refused() {
    let mut bytes = header(1, 0, 4, 3, 28);
    put(&mut bytes, 28, &0u32.to_le_bytes());
    put(&mut bytes, 32, &[1; 80]);
    let mut reader = ByteReader::new(bytes);
    assert!(matches!(ZfsFile::from_stream(&mut reader), Err(ZfsError::EmptyNameField)));
}

#[test]
fn truncated_archive_is_a_short_read() {
    let mut full = header(1, 8, 4, 2, 28);
    put(&mut full, 28, &0u32.to_le_bytes());
    put(&mut full, 32, &entry(b"a.txt", 8, 100, 10, 1000, 7));
    put(&mut full, 60, &entry(b"b.txt", 8, 110, 20, 2000, 0));
    for cut in [0, 3, 4, 27, 28, 31, 35, 40, 59, 61, 87] {
        let mut reader = ByteReader::new(full[..cut].to_vec());
        assert!(matches!(ZfsFile::from_stream(&mut reader), Err(ZfsError::ShortRead)));
        assert_eq!(reader.position(), cut as u64);
    }
    let mut reader = ByteReader::new(full);
    assert!(ZfsFile::from_stream(&mut reader).is_ok());
}

#[test]
fn table_offset_behind_the_end_is_a_short_read() {
    let bytes = header(1, 8, 4, 0, 1000);
    let mut reader = ByteReader::new(bytes);
    assert!(matches!(ZfsFile::from_stream(&mut reader), Err(ZfsError::ShortRead)));
}

#[test]
fn names_lose_their_padding_only() {
    assert_eq!(decode_name(&b"file.dat\0\0\0\0".to_vec()), "file.dat");
    assert_eq!(decode_name(&b"full".to_vec()), "full");
    assert_eq!(decode_name(&b"a\0b\0\0".to_vec()), "a\0b");
    assert_eq!(decode_name(&b"\0\0".to_vec()), "");
    assert_eq!(decode_name(&Vec::new()), "");
}

#[test]
fn names_are_decoded_as_lossy_utf8() {
    assert_eq!(decode_name(&vec![0xc3, 0xa9, b'.', b'x', 0]), "\u{e9}.x");
    assert_eq!(decode_name(&vec![b'a', 0xff, b'b', 0, 0]), "a\u{fffd}b");
    assert_eq!(decode_name(&vec![0xe2, 0x82, 0]), "\u{fffd}");
    let mut bytes = header(1, 4, 4, 1, 28);
    put(&mut bytes, 28, &0u32.to_le_bytes());
    put(&mut bytes, 32, &entry(&[0x80, b'z'], 4, 0, 0, 0, 0));
    let mut reader = ByteReader::new(bytes);
    let zfs = ZfsFile::from_stream(&mut reader).unwrap();
    assert_eq!(zfs.files[0].name, "\u{fffd}z");
}

#[test]
fn trims_trailing_nul_characters() {
    assert_eq!(trim_trailing_nul("abc\0\0"), "abc");
    assert_eq!(trim_trailing_nul("\0abc"), "\0abc");
    assert_eq!(trim_trailing_nul("\0"), "");
    assert_eq!(trim_trailing_nul(""), "");
    assert_eq!(trim_trailing_nul("\u{e9}\u{fffd}\0"), "\u{e9}\u{fffd}");
}

fn entry_record(name: &str, offset: usize, size: usize) -> ZfsEntry {
    ZfsEntry { name: name.to_string(), offset, size, timestamp: 0, flags: 0 }
}

#[test]
fn read_data_gives_the_exact_range() {
    let bytes: Vec<u8> = (0..50u8).collect();
    let mut reader = ByteReader::new(bytes);
    assert_eq!(entry_record("x", 10, 5).read_data(&mut reader), Ok(vec![10, 11, 12, 13, 14]));
    assert_eq!(reader.position(), 15);
    assert_eq!(entry_record("x", 48, 2).read_data(&mut reader), Ok(vec![48, 49]));
    assert_eq!(entry_record("x", 3, 0).read_data(&mut reader), Ok(Vec::new()));
    assert_eq!(entry_record("x", 48, 3).read_data(&mut reader), Err(ZfsError::ShortRead));
    assert_eq!(reader.position(), 50);
    assert_eq!(entry_record("x", 60, 1).read_data(&mut reader), Err(ZfsError::ShortRead));
}

#[test]
fn read_rim_image_seeks_to_the_entry() {
    let mut bytes = vec![0x77; 20];
    bytes.extend_from_slice(b"RIMF");
    bytes.extend_from_slice(&[0, 0, 0, 0, 1, 0, 1, 0, 2, 0, 1, 0, 0x00, 0xf8]);
    let mut reader = ByteReader::new(bytes);
    let image = entry_record("a.rim", 20, 18).read_rim_image(&mut reader).unwrap();
    assert_eq!(image.fmt, RimFormat::RGB565);
    assert_eq!(image.data, vec![0xf800]);
    assert_eq!(image.to_rgba_bytes(), vec![248, 0, 0, 255]);
    let again = entry_record("a.rim", 20, 18).read_rim_image(&mut reader).unwrap();
    assert_eq!(again.data, vec![0xf800]);
    assert!(matches!(
        entry_record("a.rim", 0, 18).read_rim_image(&mut reader),
        Err(ZfsError::InvalidSignature)
    ));
}
