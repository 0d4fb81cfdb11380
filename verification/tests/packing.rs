use easypack::error::{EasypackError, ErrorKind};
use easypack::readers::{get_unpacker, read_header, ver_1_0, ver_1_1, VersionedUnpacker};
use easypack::utils::{Record, Version};
use easypack::writers;
use easypack::writers::TocEntry;
use easypack::{pack_records, pack_records_update, unpack_records};

/// Complete test on a container in memory.
#[test]
fn pack_unpack_records() -> Result<(), EasypackError> {
    // Pack them.
    let packed = pack_records(vec![
        Record::new("c1".into(), vec![0x12, 0x34]),
        Record::new("c2".into(), vec![0x34]),
    ])?;

    // Now unpack and assert on the content.
    let res = unpack_records(&packed, &["c2", "c1", "nope"])?;
    assert_eq!(res.0.len(), 2);
    assert_eq!(res.1.len(), 1);

    let record = res.0.get(0).unwrap();
    assert_eq!(record.data.as_slice(), vec![0x34]);

    let record = res.0.get(1).unwrap();
    assert_eq!(record.data.as_slice(), vec![0x12, 0x34]);

    let record = res.1.get(0).unwrap();
    assert_eq!(record, "nope");

    Ok(())
}

/// Update a container, without making a new one.
#[test]
fn update_file() -> Result<(), EasypackError> {
    // Pack some data
    let packed = pack_records(vec![
        Record::new("packed_first_1".into(), vec![0x12, 0x34]),
        Record::new("packed_first_2".into(), vec![0x34]),
    ])?;

    // Add some records
    let packed = pack_records_update(
        packed,
        vec![
            Record::new("repacked_1".into(), vec![0x67, 0x89]),
            Record::new("repacked_2".into(), vec![0x66]),
        ],
    )?;

    // Unpack and verify that all content is there.
    let res = unpack_records(
        &packed,
        &["packed_first_1", "packed_first_2", "repacked_1", "repacked_2"],
    )?;

    assert_eq!(res.0.len(), 4);
    assert_eq!(res.1.len(), 0);

    assert_eq!(res.0.get(0).unwrap().data.as_slice(), [0x12, 0x34]);
    assert_eq!(res.0.get(1).unwrap().data.as_slice(), [0x34]);
    assert_eq!(res.0.get(2).unwrap().data.as_slice(), [0x67, 0x89]);
    assert_eq!(res.0.get(3).unwrap().data.as_slice(), [0x66]);

    Ok(())
}

#[test]
fn update_keeps_old_records_and_appends_new_ones() {
    let packed = pack_records(vec![
        Record::new("A".into(), vec![1, 2]),
        Record::new("B".into(), vec![3]),
    ])
    .unwrap();
    let before = packed.clone();
    let packed = pack_records_update(
        packed,
        vec![Record::new("C".into(), vec![4, 5]), Record::new("D".into(), vec![6])],
    )
    .unwrap();
    // What was there stays where it was, the old table and footer too.
    assert_eq!(&packed[..before.len()], before.as_slice());

    let (found, missing) = unpack_records(&packed, &["A", "B", "C", "D"]).unwrap();
    assert!(missing.is_empty());
    let names: Vec<&str> = found.iter().map(|r| r.name.as_str()).collect();
    assert_eq!(names, vec!["A", "B", "C", "D"]);
    assert_eq!(found[0].data, vec![1, 2]);
    assert_eq!(found[1].data, vec![3]);
    assert_eq!(found[2].data, vec![4, 5]);
    assert_eq!(found[3].data, vec![6]);
}

#[test]
fn container_1_1_has_the_documented_bytes() {
    let packed = pack_records(vec![
        Record::new("ab".into(), vec![0xaa, 0xbb, 0xcc]),
        Record::new("c".into(), vec![0xdd]),
    ])
    .unwrap();
    let mut expected: Vec<u8> = vec![];
    expected.extend_from_slice(b"SMPL");
    expected.extend_from_slice(&[1, 1]);
    expected.extend_from_slice(&[0xaa, 0xbb, 0xcc, 0xdd]);
    // first entry: offset 6, length 3, name "ab"
    expected.extend_from_slice(&[6, 0, 0, 0, 0, 0, 0, 0]);
    expected.extend_from_slice(&[3, 0, 0, 0, 0, 0, 0, 0]);
    expected.extend_from_slice(&[2, b'a', b'b']);
    // second entry: offset 9, length 1, name "c"
    expected.extend_from_slice(&[9, 0, 0, 0, 0, 0, 0, 0]);
    expected.extend_from_slice(&[1, 0, 0, 0, 0, 0, 0, 0]);
    expected.extend_from_slice(&[1, b'c']);
    // footer: the table starts at 10 and has 2 entries
    expected.extend_from_slice(&[10, 0, 0, 0, 0, 0, 0, 0]);
    expected.extend_from_slice(&[2, 0, 0, 0, 0, 0, 0, 0]);
    assert_eq!(packed, expected);
}

#[test]
fn container_1_0_has_the_documented_bytes() {
    let mut writer = writers::ver_1_0::Packer::from_writer(vec![]).write_header().unwrap();
    writer.write_record(Record::new("ab".into(), vec![0xaa, 0xbb, 0xcc])).unwrap();
    writer.write_record(Record::new("c".into(), vec![0xdd])).unwrap();
    let packed = writer.close().unwrap();
    let mut expected: Vec<u8> = vec![];
    expected.extend_from_slice(b"SMPL");
    expected.extend_from_slice(&[1, 0]);
    expected.extend_from_slice(&[0xaa, 0xbb, 0xcc, 0xdd]);
    expected.extend_from_slice(&[6, 0, 0, 0, 3, 0, 0, 0, 2, b'a', b'b']);
    expected.extend_from_slice(&[9, 0, 0, 0, 1, 0, 0, 0, 1, b'c']);
    expected.extend_from_slice(&[10, 0, 0, 0, 2, 0, 0, 0]);
    assert_eq!(packed, expected);
}

#[test]
fn integers_are_little_endian() {
    // A payload of 0x0102 bytes: the length and the table's offset need two bytes.
    let packed = pack_records(vec![Record::new("x".into(), vec![7; 0x0102])]).unwrap();
    let n = packed.len();
    assert_eq!(&packed[n - 16..n - 8], &[0x08, 0x01, 0, 0, 0, 0, 0, 0]);
    assert_eq!(&packed[n - 8..], &[1, 0, 0, 0, 0, 0, 0, 0]);
    let entry = &packed[6 + 0x0102..n - 16];
    assert_eq!(entry, &[6, 0, 0, 0, 0, 0, 0, 0, 0x02, 0x01, 0, 0, 0, 0, 0, 0, 1, b'x']);
}

#[test]
fn empty_container_round_trips() {
    let packed = pack_records(vec![]).unwrap();
    assert_eq!(packed.len(), 6 + 16);
    let (found, missing) = unpack_records(&packed, &["a"]).unwrap();
    assert!(found.is_empty());
    assert_eq!(missing, vec!["a".to_owned()]);
}

#[test]
fn round_trip_of_every_record() {
    let names = ["", "a", "name with spaces", "ünïcödé ✓", "z"];
    let blobs: Vec<Vec<u8>> =
        vec![vec![], vec![0], vec![1, 2, 3], (0..=255).collect(), vec![0xff; 1000]];
    let records: Vec<Record> = names
        .iter()
        .zip(blobs.iter())
        .map(|(n, b)| Record::new((*n).to_owned(), b.clone()))
        .collect();
    let packed = pack_records(records).unwrap();
    let (found, missing) = unpack_records(&packed, &names).unwrap();
    assert!(missing.is_empty());
    assert_eq!(found.len(), names.len());
    for i in 0..names.len() {
        assert_eq!(found[i].name, names[i]);
        assert_eq!(found[i].data, blobs[i]);
    }
}

#[test]
fn not_found_names_come_back_in_query_order() {
    let packed = pack_records(vec![
        Record::new("a".into(), vec![1]),
        Record::new("b".into(), vec![2]),
    ])
    .unwrap();
    let (found, missing) = unpack_records(&packed, &["x", "b", "y", "a", "x"]).unwrap();
    assert_eq!(missing, vec!["x".to_owned(), "y".to_owned(), "x".to_owned()]);
    assert_eq!(found.len(), 2);
    assert_eq!(found[0].name, "b");
    assert_eq!(found[0].data, vec![2]);
    assert_eq!(found[1].name, "a");
    assert_eq!(found[1].data, vec![1]);
}

#[test]
fn current_codec_writes_version_1_1() {
    let packed = pack_records(vec![Record::new("a".into(), vec![1])]).unwrap();
    assert_eq!(read_header(&packed).unwrap(), Version::from((1, 1)));
    let pair: (u8, u8) = read_header(&packed).unwrap().into();
    assert_eq!(pair, (1, 1));
}

#[test]
fn legacy_codec_writes_version_1_0() {
    let writer = writers::ver_1_0::Packer::from_writer(vec![]).write_header().unwrap();
    let packed = writer.close().unwrap();
    assert_eq!(read_header(&packed).unwrap(), Version::from((1, 0)));
}

#[test]
fn legacy_container_is_unpacked_by_its_header() {
    let mut writer = writers::ver_1_0::Packer::from_writer(vec![]).write_header().unwrap();
    writer.write_record(Record::new("old".into(), vec![9, 8, 7])).unwrap();
    let packed = writer.close().unwrap();
    let (found, missing) = unpack_records(&packed, &["old", "new"]).unwrap();
    assert_eq!(found.len(), 1);
    assert_eq!(found[0].name, "old");
    assert_eq!(found[0].data, vec![9, 8, 7]);
    assert_eq!(missing, vec!["new".to_owned()]);
}

#[test]
fn unknown_version_is_rejected_by_the_dispatcher() {
    let mut buff = b"SMPL".to_vec();
    buff.extend_from_slice(&[0, 12]);
    buff.extend_from_slice(&[0; 16]);
    assert_eq!(read_header(&buff).unwrap(), Version::from((0, 12)));
    let err = match get_unpacker(&buff) {
        Ok(_) => panic!("version (0, 12) has no unpacker"),
        Err(e) => e,
    };
    assert_eq!(err.kind(), ErrorKind::InvalidFile);
    assert_eq!(
        err.to_string(),
        "InvalidFileError(\"Found version `(0, 12)`, which is not supported.\")"
    );
    let err = unpack_records(&buff, &["a"]).unwrap_err();
    assert_eq!(err.kind(), ErrorKind::InvalidFile);
}

#[test]
fn header_errors() {
    let err = read_header(b"SM").unwrap_err();
    assert_eq!(err.to_string(), "InvalidFileError(\"Not enough bytes in the header\")");
    let err = read_header(b"SMPL\x01").unwrap_err();
    assert_eq!(err.to_string(), "InvalidFileError(\"Not enough bytes in the version\")");
    let err = read_header(&[0xff, 0xfe, 0x00, 0x01, 1, 1]).unwrap_err();
    assert_eq!(err.kind(), ErrorKind::InvalidFile);
    assert!(err.to_string().starts_with("InvalidFileError(\"Unable to read the header: "));
    // The magic number is compared before the version is looked for.
    let err = read_header(b"ASDF").unwrap_err();
    assert_eq!(err.to_string(), "InvalidFileError(\"Header does not match, found ASDF\")");
}

#[test]
fn name_length_boundary_in_both_versions() {
    let fits = "n".repeat(255);
    let too_long = "n".repeat(256);
    // Two bytes for each character: 127 of them fit with one byte more, 128 do not.
    let fits_in_bytes = format!("{}x", "é".repeat(127));
    let too_long_in_bytes = "é".repeat(128);
    assert_eq!(fits_in_bytes.len(), 255);
    assert_eq!(too_long_in_bytes.len(), 256);

    let mut writer = writers::ver_1_1::Packer::from_writer(vec![]).write_header().unwrap();
    assert!(writer.write_record(Record::new(fits.clone(), vec![1])).is_ok());
    assert!(writer.write_record(Record::new(fits_in_bytes.clone(), vec![1])).is_ok());
    let err = writer.write_record(Record::new(too_long.clone(), vec![1])).unwrap_err();
    assert_eq!(err.kind(), ErrorKind::RecordNameTooBig);
    assert_eq!(
        err.to_string(),
        "RecordNameTooBig(\"Unable to write a record with name len > u8::MAX bytes.\")"
    );
    let err = writer.write_record(Record::new(too_long_in_bytes.clone(), vec![1])).unwrap_err();
    assert_eq!(err.kind(), ErrorKind::RecordNameTooBig);
    let packed = writer.close().unwrap();
    let (found, missing) = unpack_records(&packed, &[fits.as_str(), too_long.as_str()]).unwrap();
    assert_eq!(found.len(), 1);
    assert_eq!(missing, vec![too_long.clone()]);

    let mut writer = writers::ver_1_0::Packer::from_writer(vec![]).write_header().unwrap();
    assert!(writer.write_record(Record::new(fits.clone(), vec![1])).is_ok());
    assert!(writer.write_record(Record::new(fits_in_bytes, vec![1])).is_ok());
    let err = writer.write_record(Record::new(too_long, vec![1])).unwrap_err();
    assert_eq!(err.kind(), ErrorKind::RecordNameTooBig);
    let err = writer.write_record(Record::new(too_long_in_bytes, vec![1])).unwrap_err();
    assert_eq!(err.kind(), ErrorKind::RecordNameTooBig);
    let packed = writer.close().unwrap();
    let (found, _) = unpack_records(&packed, &[fits.as_str()]).unwrap();
    assert_eq!(found.len(), 1);
}

#[test]
fn duplicate_is_refused_and_the_first_record_stays() {
    let mut writer = writers::Packer::from_writer(vec![]).write_header().unwrap();
    writer.write_record(Record::new("name".into(), vec![0x12, 0x34, 0x56])).unwrap();
    let err = writer.write_record(Record::new("name".into(), vec![0x87, 0x65, 0x43])).unwrap_err();
    assert_eq!(err.kind(), ErrorKind::RecordSameName);
    assert_eq!(err.to_string(), "RecordSameName(\"Name name has already been used.\")");
    writer.write_record(Record::new("other".into(), vec![0x01])).unwrap();
    let packed = writer.close().unwrap();

    // The refused record left no byte behind.
    let same = pack_records(vec![
        Record::new("name".into(), vec![0x12, 0x34, 0x56]),
        Record::new("other".into(), vec![0x01]),
    ])
    .unwrap();
    assert_eq!(packed, same);

    let (found, missing) = unpack_records(&packed, &["name", "other"]).unwrap();
    assert!(missing.is_empty());
    assert_eq!(found[0].data, vec![0x12, 0x34, 0x56]);
    assert_eq!(found[1].data, vec![0x01]);
}

#[test]
fn duplicate_is_refused_in_the_legacy_packer() {
    let mut writer = writers::ver_1_0::Packer::from_writer(vec![]).write_header().unwrap();
    writer.write_record(Record::new("name".into(), vec![1])).unwrap();
    let err = writer.write_record(Record::new("name".into(), vec![2])).unwrap_err();
    assert_eq!(err.kind(), ErrorKind::RecordSameName);
    let packed = writer.close().unwrap();
    let (found, _) = unpack_records(&packed, &["name"]).unwrap();
    assert_eq!(found[0].data, vec![1]);
}

#[test]
fn pack_records_reports_the_first_refusal() {
    let err = pack_records(vec![
        Record::new("a".into(), vec![1]),
        Record::new("a".into(), vec![2]),
        Record::new("n".repeat(300), vec![3]),
    ])
    .unwrap_err();
    assert_eq!(err.kind(), ErrorKind::RecordSameName);
    let err = pack_records(vec![
        Record::new("n".repeat(300), vec![3]),
        Record::new("a".into(), vec![1]),
        Record::new("a".into(), vec![2]),
    ])
    .unwrap_err();
    assert_eq!(err.kind(), ErrorKind::RecordNameTooBig);
}

#[test]
fn update_refuses_a_name_that_the_container_holds() {
    let packed = pack_records(vec![Record::new("a".into(), vec![1])]).unwrap();
    let err = pack_records_update(packed, vec![Record::new("a".into(), vec![2])]).unwrap_err();
    assert_eq!(err.kind(), ErrorKind::RecordSameName);
}

#[test]
fn update_of_what_is_no_container_fails() {
    let err = pack_records_update(b"nothing".to_vec(), vec![]).unwrap_err();
    assert_eq!(err.kind(), ErrorKind::InvalidFile);
    let err = pack_records_update(b"SMPL\x01\x01".to_vec(), vec![]).unwrap_err();
    assert_eq!(err.kind(), ErrorKind::InvalidFile);
}

#[test]
fn update_twice() {
    let packed = pack_records(vec![Record::new("a".into(), vec![1])]).unwrap();
    let packed = pack_records_update(packed, vec![Record::new("b".into(), vec![2, 2])]).unwrap();
    let packed = pack_records_update(packed, vec![Record::new("c".into(), vec![3, 3, 3])]).unwrap();
    let (found, missing) = unpack_records(&packed, &["c", "b", "a"]).unwrap();
    assert!(missing.is_empty());
    assert_eq!(found[0].data, vec![3, 3, 3]);
    assert_eq!(found[1].data, vec![2, 2]);
    assert_eq!(found[2].data, vec![1]);
}

#[test]
fn append_mode_goes_on_behind_the_given_position() {
    let toc = vec![TocEntry::new("first".into(), 6, 2)];
    let mut writer =
        writers::Packer::from_writer(vec![0; 40]).append_mode(toc, 40).unwrap();
    writer.write_record(Record::new("second".into(), vec![5, 5, 5])).unwrap();
    let err = writer.write_record(Record::new("first".into(), vec![1])).unwrap_err();
    assert_eq!(err.kind(), ErrorKind::RecordSameName);
    let packed = writer.close().unwrap();
    let mut reader = ver_1_1::Unpacker::from_reader(&packed);
    reader.init().unwrap();
    let entries: Vec<(u64, u64, String)> =
        reader.toc_entries().into_iter().map(|e| e.extract()).collect();
    assert_eq!(
        entries,
        vec![(6, 2, "first".to_owned()), (40, 3, "second".to_owned())]
    );
    assert_eq!(reader.read_record("second").unwrap().unwrap().data, vec![5, 5, 5]);
}

#[test]
fn append_mode_refuses_a_table_with_a_long_name() {
    let toc = vec![TocEntry::new("ok".into(), 6, 2), TocEntry::new("n".repeat(256), 8, 2)];
    let err = match writers::Packer::from_writer(vec![]).append_mode(toc, 10) {
        Ok(_) => panic!("a name of 256 bytes fits no entry"),
        Err(e) => e,
    };
    assert_eq!(err.kind(), ErrorKind::RecordNameTooBig);
}

#[test]
fn toc_entry_parts() {
    let entry = TocEntry::new("name".into(), 10, 20);
    assert!(entry.same_record_name("name"));
    assert!(!entry.same_record_name("nam"));
    assert!(!entry.same_record_name("name "));
    assert_eq!(entry.extract(), (10, 20, "name".to_owned()));
}

#[test]
fn legacy_table_is_handed_out_in_the_latest_form() {
    let mut writer = writers::ver_1_0::Packer::from_writer(vec![]).write_header().unwrap();
    writer.write_record(Record::new("a".into(), vec![1, 2])).unwrap();
    writer.write_record(Record::new("b".into(), vec![3])).unwrap();
    let packed = writer.close().unwrap();
    let mut reader = ver_1_0::Unpacker::from_reader(&packed);
    assert!(reader.toc_entries().is_empty());
    reader.read_toc().unwrap();
    let entries: Vec<(u64, u64, String)> =
        reader.toc_entries().into_iter().map(|e| e.extract()).collect();
    assert_eq!(entries, vec![(6, 2, "a".to_owned()), (8, 1, "b".to_owned())]);
}

#[test]
fn lookup_before_init_finds_nothing() {
    let packed = pack_records(vec![Record::new("a".into(), vec![1])]).unwrap();
    let mut reader = ver_1_1::Unpacker::from_reader(&packed);
    assert!(reader.read_record("a").unwrap().is_none());
    reader.init().unwrap();
    assert_eq!(reader.read_record("a").unwrap().unwrap().data, vec![1]);
    let mut unpacker = get_unpacker(&packed).unwrap();
    assert!(unpacker.read_record("a").unwrap().is_none());
}

#[test]
fn update_of_a_legacy_container_leaves_its_header() {
    let mut writer = writers::ver_1_0::Packer::from_writer(vec![]).write_header().unwrap();
    writer.write_record(Record::new("old".into(), vec![1, 2])).unwrap();
    let legacy = writer.close().unwrap();
    let grown =
        pack_records_update(legacy.clone(), vec![Record::new("new".into(), vec![3])]).unwrap();
    assert_eq!(&grown[..legacy.len()], legacy.as_slice());
    assert_eq!(read_header(&grown).unwrap(), Version::from((1, 0)));

    // The new table is one of version 1.1, and holds the old entry and the new one.
    let mut reader = ver_1_1::Unpacker::from_reader(&grown);
    reader.init().unwrap();
    assert_eq!(reader.read_record("old").unwrap().unwrap().data, vec![1, 2]);
    assert_eq!(reader.read_record("new").unwrap().unwrap().data, vec![3]);

    // Read by its header, the container shows no record at all.
    let (found, missing) = unpack_records(&grown, &["old", "new"]).unwrap();
    assert!(found.is_empty());
    assert_eq!(missing, vec!["old".to_owned(), "new".to_owned()]);
}

#[test]
fn update_appends_payloads_table_and_footer() {
    let old = pack_records(vec![Record::new("a".into(), vec![0xaa, 0xab])]).unwrap();
    // header 6, payload 2, one entry of 18, footer 16
    assert_eq!(old.len(), 42);
    let grown = pack_records_update(
        old.clone(),
        vec![Record::new("bc".into(), vec![0xbb]), Record::new("d".into(), vec![0xdd, 0xde, 0xdf])],
    )
    .unwrap();

    let mut expected = old.clone();
    // the new payloads, from 42 on
    expected.extend_from_slice(&[0xbb, 0xdd, 0xde, 0xdf]);
    // the old entry as it was
    expected.extend_from_slice(&[6, 0, 0, 0, 0, 0, 0, 0, 2, 0, 0, 0, 0, 0, 0, 0, 1, b'a']);
    // the new entries, in the order of writing
    expected.extend_from_slice(&[42, 0, 0, 0, 0, 0, 0, 0, 1, 0, 0, 0, 0, 0, 0, 0, 2, b'b', b'c']);
    expected.extend_from_slice(&[43, 0, 0, 0, 0, 0, 0, 0, 3, 0, 0, 0, 0, 0, 0, 0, 1, b'd']);
    // the footer: the table starts at 42 + 4 and has 3 entries
    expected.extend_from_slice(&[46, 0, 0, 0, 0, 0, 0, 0]);
    expected.extend_from_slice(&[3, 0, 0, 0, 0, 0, 0, 0]);
    assert_eq!(grown, expected);

    let mut reader = ver_1_1::Unpacker::from_reader(&grown);
    reader.init().unwrap();
    let entries: Vec<(u64, u64, String)> =
        reader.toc_entries().into_iter().map(|e| e.extract()).collect();
    assert_eq!(
        entries,
        vec![(6, 2, "a".to_owned()), (42, 1, "bc".to_owned()), (43, 3, "d".to_owned())]
    );
    assert_eq!(ver_1_1::read_footer(&grown).unwrap(), (46, 3));
}

#[test]
fn update_with_no_record_rewrites_the_table_behind_the_old_one() {
    let old = pack_records(vec![Record::new("a".into(), vec![1])]).unwrap();
    let grown = pack_records_update(old.clone(), vec![]).unwrap();
    assert_eq!(&grown[..old.len()], old.as_slice());
    assert_eq!(ver_1_1::read_footer(&grown).unwrap(), (old.len() as u64, 1));
    let (found, missing) = unpack_records(&grown, &["a"]).unwrap();
    assert!(missing.is_empty());
    assert_eq!(found[0].data, vec![1]);
}
