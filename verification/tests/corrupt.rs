use easypack::error::ErrorKind;
use easypack::readers::{ver_1_0, ver_1_1, VersionedUnpacker};
use easypack::utils::Record;
use easypack::{pack_records, unpack_records};

#[test]
fn buffer_shorter_than_a_footer() {
    for n in 0..16 {
        let buff = vec![0u8; n];
        let err = ver_1_1::read_footer(&buff).unwrap_err();
        assert_eq!(err.kind(), ErrorKind::InvalidFile);
        assert_eq!(err.to_string(), "InvalidFileError(\"Not enough bytes in the footer\")");
        let mut reader = ver_1_1::Unpacker::from_reader(&buff);
        assert_eq!(reader.init().unwrap_err().kind(), ErrorKind::InvalidFile);
    }
    for n in 0..8 {
        let buff = vec![0u8; n];
        let err = ver_1_0::read_footer(&buff).unwrap_err();
        assert_eq!(err.kind(), ErrorKind::InvalidFile);
        let mut reader = ver_1_0::Unpacker::from_reader(&buff);
        assert_eq!(reader.read_toc().unwrap_err().kind(), ErrorKind::InvalidFile);
    }
    assert_eq!(ver_1_1::read_footer(&[0u8; 16]).unwrap(), (0, 0));
    assert_eq!(ver_1_0::read_footer(&[0u8; 8]).unwrap(), (0, 0));
}

#[test]
fn footer_is_the_last_bytes() {
    let mut buff = vec![0xeeu8; 5];
    buff.extend_from_slice(&[0x01, 0x02, 0x03, 0x04, 0x05, 0x06, 0x07, 0x08]);
    buff.extend_from_slice(&[0x11, 0x12, 0x13, 0x14, 0x15, 0x16, 0x17, 0x18]);
    assert_eq!(
        ver_1_1::read_footer(&buff).unwrap(),
        (0x0807_0605_0403_0201, 0x1817_1615_1413_1211)
    );
    assert_eq!(ver_1_0::read_footer(&buff).unwrap(), (0x1413_1211, 0x1817_1615));
}

#[test]
fn entry_with_a_name_longer_than_what_is_left() {
    // One entry at 0: offset 0, length 0, a name of 5 bytes, of which 3 are there.
    let mut buff: Vec<u8> = vec![];
    buff.extend_from_slice(&[0; 16]);
    buff.push(5);
    buff.extend_from_slice(b"abc");
    let err = ver_1_1::read_toc_entries(&buff, 0, 1).unwrap_err();
    assert_eq!(err.kind(), ErrorKind::InvalidFile);
    assert_eq!(
        err.to_string(),
        "InvalidFileError(\"Not enough bytes to read the name of the 0th toc? bytes_read: 3\")"
    );
    buff.extend_from_slice(b"de");
    let toc = ver_1_1::read_toc_entries(&buff, 0, 1).unwrap();
    assert_eq!(toc, vec![(0, 0, "abcde".to_owned())]);

    let mut buff: Vec<u8> = vec![];
    buff.extend_from_slice(&[0; 8]);
    buff.push(5);
    buff.extend_from_slice(b"abc");
    let err = ver_1_0::read_toc_entries(&buff, 0, 1).unwrap_err();
    assert_eq!(err.kind(), ErrorKind::InvalidFile);
    buff.extend_from_slice(b"de");
    let toc = ver_1_0::read_toc_entries(&buff, 0, 1).unwrap();
    assert_eq!(toc, vec![(0, 0, "abcde".to_owned())]);
}

#[test]
fn table_that_ends_before_its_entries_do() {
    let buff = vec![0u8; 20];
    let err = ver_1_1::read_toc_entries(&buff, 0, 2).unwrap_err();
    assert_eq!(
        err.to_string(),
        "InvalidFileError(\"Not enough bytes to read the pos of the 1th toc? bytes_read: 3\")"
    );
    let err = ver_1_1::read_toc_entries(&buff, 10, 1).unwrap_err();
    assert_eq!(
        err.to_string(),
        "InvalidFileError(\"Not enough bytes to read the pos of the 0th toc? bytes_read: 2\")"
    );
    let err = ver_1_1::read_toc_entries(&buff, 4, 1).unwrap_err();
    assert_eq!(
        err.to_string(),
        "InvalidFileError(\"Not enough bytes to read the str_len of the 0th toc? bytes_read: 0\")"
    );
    // A table behind the end has nothing to read; an empty one reads nothing.
    let err = ver_1_1::read_toc_entries(&buff, 1000, 1).unwrap_err();
    assert_eq!(
        err.to_string(),
        "InvalidFileError(\"Not enough bytes to read the pos of the 0th toc? bytes_read: 0\")"
    );
    assert!(ver_1_1::read_toc_entries(&buff, 1000, 0).unwrap().is_empty());
    assert!(ver_1_0::read_toc_entries(&buff, 1000, 0).unwrap().is_empty());
    let err = ver_1_0::read_toc_entries(&buff, 18, 1).unwrap_err();
    assert_eq!(err.kind(), ErrorKind::InvalidFile);
    let err = ver_1_1::read_toc_entries(&buff, u64::MAX, 1).unwrap_err();
    assert_eq!(err.kind(), ErrorKind::InvalidFile);
    let err = ver_1_1::read_toc_entries(&buff, 0, u64::MAX).unwrap_err();
    assert_eq!(err.kind(), ErrorKind::InvalidFile);
}

#[test]
fn name_that_is_no_utf8() {
    let mut buff: Vec<u8> = vec![];
    buff.extend_from_slice(&[0; 16]);
    buff.push(2);
    buff.extend_from_slice(&[0xc3, 0x28]);
    let err = ver_1_1::read_toc_entries(&buff, 0, 1).unwrap_err();
    assert_eq!(err.kind(), ErrorKind::InvalidFile);
    assert_eq!(err.to_string(), "InvalidFileError(\"The name of the 0th toc is not UTF-8\")");
    let mut buff: Vec<u8> = vec![];
    buff.extend_from_slice(&[0; 8]);
    buff.push(1);
    buff.push(0xff);
    let err = ver_1_0::read_toc_entries(&buff, 0, 1).unwrap_err();
    assert_eq!(err.kind(), ErrorKind::InvalidFile);
}

#[test]
fn name_with_more_than_one_byte_to_a_character() {
    let mut buff: Vec<u8> = vec![];
    buff.extend_from_slice(&[1, 0, 0, 0, 0, 0, 0, 0]);
    buff.extend_from_slice(&[2, 0, 0, 0, 0, 0, 0, 0]);
    buff.push(5);
    buff.extend_from_slice("é✓".as_bytes());
    let toc = ver_1_1::read_toc_entries(&buff, 0, 1).unwrap();
    assert_eq!(toc, vec![(1, 2, "é✓".to_owned())]);
}

#[test]
fn record_that_ends_behind_the_container() {
    let buff: Vec<u8> = (0u8..10).collect();
    assert_eq!(ver_1_1::read_record(&buff, 2, 3).unwrap(), vec![2, 3, 4]);
    assert_eq!(ver_1_1::read_record(&buff, 7, 3).unwrap(), vec![7, 8, 9]);
    assert_eq!(ver_1_0::read_record(&buff, 2, 3).unwrap(), vec![2, 3, 4]);
    let err = ver_1_1::read_record(&buff, 8, 3).unwrap_err();
    assert_eq!(err.to_string(), "InvalidFileError(\"Not enough bytes to read: 2\")");
    let err = ver_1_0::read_record(&buff, 8, 3).unwrap_err();
    assert_eq!(err.to_string(), "InvalidFileError(\"Not enough bytes to read: 2\")");
    let err = ver_1_1::read_record(&buff, 11, 1).unwrap_err();
    assert_eq!(err.to_string(), "InvalidFileError(\"Not enough bytes to read: 0\")");
    let err = ver_1_1::read_record(&buff, u64::MAX, u64::MAX).unwrap_err();
    assert_eq!(err.kind(), ErrorKind::InvalidFile);
    // No byte is read for an empty record, wherever it is said to lie.
    assert!(ver_1_1::read_record(&buff, 500, 0).unwrap().is_empty());
    assert!(ver_1_0::read_record(&buff, 500, 0).unwrap().is_empty());
}

#[test]
fn truncated_container_is_invalid() {
    let packed = pack_records(vec![
        Record::new("a".into(), vec![1, 2, 3]),
        Record::new("b".into(), vec![4]),
    ])
    .unwrap();
    // Without its last byte the footer is read one byte early: the count is huge.
    let cut = &packed[..packed.len() - 1];
    assert_eq!(unpack_records(cut, &["a"]).unwrap_err().kind(), ErrorKind::InvalidFile);
    // A footer that points behind the records it describes.
    let mut wrong = packed.clone();
    let n = wrong.len();
    wrong[n - 16] = 0xff;
    assert_eq!(unpack_records(&wrong, &["a"]).unwrap_err().kind(), ErrorKind::InvalidFile);
}

#[test]
fn entry_that_points_behind_the_container() {
    // header, no payload, one entry "a" at offset 6 with length 9, footer
    let mut buff = b"SMPL\x01\x01".to_vec();
    buff.extend_from_slice(&[6, 0, 0, 0, 0, 0, 0, 0]);
    buff.extend_from_slice(&[0xff, 0, 0, 0, 0, 0, 0, 0]);
    buff.extend_from_slice(&[1, b'a']);
    buff.extend_from_slice(&[6, 0, 0, 0, 0, 0, 0, 0]);
    buff.extend_from_slice(&[1, 0, 0, 0, 0, 0, 0, 0]);
    let err = unpack_records(&buff, &["a"]).unwrap_err();
    assert_eq!(err.kind(), ErrorKind::InvalidFile);
    // A name that is not asked for is not read.
    let (found, missing) = unpack_records(&buff, &["b"]).unwrap();
    assert!(found.is_empty());
    assert_eq!(missing, vec!["b".to_owned()]);
}

#[test]
fn first_match_wins_among_equal_names() {
    // Two entries named "a": the first points at [1], the second at [2].
    let mut buff = b"SMPL\x01\x01".to_vec();
    buff.extend_from_slice(&[1, 2]);
    buff.extend_from_slice(&[6, 0, 0, 0, 0, 0, 0, 0, 1, 0, 0, 0, 0, 0, 0, 0, 1, b'a']);
    buff.extend_from_slice(&[7, 0, 0, 0, 0, 0, 0, 0, 1, 0, 0, 0, 0, 0, 0, 0, 1, b'a']);
    buff.extend_from_slice(&[8, 0, 0, 0, 0, 0, 0, 0]);
    buff.extend_from_slice(&[2, 0, 0, 0, 0, 0, 0, 0]);
    let (found, _) = unpack_records(&buff, &["a"]).unwrap();
    assert_eq!(found[0].data, vec![1]);
}

#[test]
fn messages_of_a_container_that_cannot_be_opened() {
    let text = |bytes: &[u8]| unpack_records(bytes, &["a"]).unwrap_err().to_string();
    assert_eq!(text(b""), "InvalidFileError(\"Not enough bytes in the header\")");
    assert_eq!(text(b"SMPL"), "InvalidFileError(\"Not enough bytes in the version\")");
    assert_eq!(text(b"PACKED"), "InvalidFileError(\"Header does not match, found PACK\")");
    assert_eq!(
        text(b"SMPL\x02\x00"),
        "InvalidFileError(\"Found version `(2, 0)`, which is not supported.\")"
    );
    assert_eq!(text(b"SMPL\x01\x01"), "InvalidFileError(\"Not enough bytes in the footer\")");
    assert_eq!(text(b"SMPL\x01\x00\x00"), "InvalidFileError(\"Not enough bytes in the footer\")");
    // A footer of version 1.0 that asks for 258 entries at offset 6, where the footer is.
    assert_eq!(
        text(b"SMPL\x01\x00\x06\x00\x00\x00\x02\x01\x00\x00"),
        "InvalidFileError(\"Not enough bytes to read the str_len of the 0th toc? bytes_read: 0\")"
    );
    // One entry is there; the second is read from the footer, which ends before its name.
    let mut buff = b"SMPL\x01\x00".to_vec();
    buff.extend_from_slice(&[6, 0, 0, 0, 0, 0, 0, 0, 1, b'a']);
    buff.extend_from_slice(&[6, 0, 0, 0, 2, 0, 0, 0]);
    assert_eq!(
        text(&buff),
        "InvalidFileError(\"Not enough bytes to read the str_len of the 1th toc? bytes_read: 0\")"
    );
}

#[test]
fn message_of_the_first_record_that_is_cut() {
    // Two entries that point behind the container, and one that does not.
    let mut buff = b"SMPL\x01\x00".to_vec();
    buff.extend_from_slice(&[1, 2, 3]);
    buff.extend_from_slice(&[7, 0, 0, 0, 100, 0, 0, 0, 1, b'a']);
    buff.extend_from_slice(&[200, 0, 0, 0, 1, 0, 0, 0, 1, b'b']);
    buff.extend_from_slice(&[6, 0, 0, 0, 3, 0, 0, 0, 1, b'c']);
    buff.extend_from_slice(&[9, 0, 0, 0, 3, 0, 0, 0]);
    let (found, missing) = unpack_records(&buff, &["c", "d"]).unwrap();
    assert_eq!(found[0].data, vec![1, 2, 3]);
    assert_eq!(missing, vec!["d".to_owned()]);
    let err = unpack_records(&buff, &["c", "b", "a"]).unwrap_err();
    assert_eq!(err.to_string(), "InvalidFileError(\"Not enough bytes to read: 0\")");
    let err = unpack_records(&buff, &["d", "a", "b"]).unwrap_err();
    assert_eq!(err.to_string(), "InvalidFileError(\"Not enough bytes to read: 40\")");
}
