use zkey_reader::bin_utils::{BinFile, Section, ZKeyError};

fn push_u32_le(out: &mut Vec<u8>, v: u32) {
    out.push((v & 0xff) as u8);
    out.push(((v >> 8) & 0xff) as u8);
    out.push(((v >> 16) & 0xff) as u8);
    out.push(((v >> 24) & 0xff) as u8);
}

fn push_u64_le(out: &mut Vec<u8>, v: u64) {
    let mut x = v;
    let mut i = 0;
    while i < 8 {
        out.push((x & 0xff) as u8);
        x >>= 8;
        i += 1;
    }
}

fn build_container(magic: &[u8], version: u32, sections: &[(u32, Vec<u8>)]) -> Vec<u8> {
    let mut out: Vec<u8> = Vec::new();
    out.extend_from_slice(magic);
    push_u32_le(&mut out, version);
    push_u32_le(&mut out, sections.len() as u32);
    for (ty, payload) in sections {
        push_u32_le(&mut out, *ty);
        push_u64_le(&mut out, payload.len() as u64);
        out.extend_from_slice(payload);
    }
    out
}

fn zkey_magic() -> Vec<u8> {
    b"zkey".to_vec()
}

#[test]
fn open_twice_gives_identical_boundaries() {
    let data = build_container(
        b"zkey",
        1,
        &[(2, vec![1, 2, 3]), (5, vec![9, 8]), (2, vec![7, 7, 7, 7])],
    );
    let bf1 = BinFile::new_from_reader(data.clone(), zkey_magic(), 1).unwrap();
    let bf2 = BinFile::new_from_reader(data, zkey_magic(), 1).unwrap();
    for ty in [2u32, 5, 99] {
        let s1: Vec<Section> = bf1.sections(ty);
        let s2: Vec<Section> = bf2.sections(ty);
        assert_eq!(s1, s2);
    }
    let twos = bf1.sections(2);
    assert_eq!(twos.len(), 2);
    assert_eq!(twos[0], Section { offset: 24, size: 3 });
    assert_eq!(twos[1], Section { offset: 53, size: 4 });
    let fives = bf1.sections(5);
    assert_eq!(fives, vec![Section { offset: 39, size: 2 }]);
}

#[test]
fn bad_magic_is_format_error() {
    let data = build_container(b"abcd", 1, &[(2, vec![1, 2, 3])]);
    let r = BinFile::new_from_reader(data, zkey_magic(), 1);
    assert!(matches!(r, Err(ZKeyError::FormatError)));
}

#[test]
fn version_above_max_is_format_error() {
    let data = build_container(b"zkey", 2, &[(2, vec![1, 2, 3])]);
    let r = BinFile::new_from_reader(data, zkey_magic(), 1);
    assert!(matches!(r, Err(ZKeyError::FormatError)));
}

#[test]
fn empty_data_is_io_error() {
    let r = BinFile::new_from_reader(Vec::new(), zkey_magic(), 1);
    assert!(matches!(r, Err(ZKeyError::IoError)));
}

#[test]
fn truncated_directory_is_io_error() {
    // The count claims two sections but only one entry follows.
    let mut data = build_container(b"zkey", 1, &[(2, vec![1, 2, 3])]);
    data[8] = 2;
    let r = BinFile::new_from_reader(data, zkey_magic(), 1);
    assert!(matches!(r, Err(ZKeyError::IoError)));
}

#[test]
fn repeated_type_indexing_and_fallback() {
    let data = build_container(
        b"zkey",
        1,
        &[
            (7, vec![10, 11]),
            (3, vec![0]),
            (7, vec![20, 21]),
            (7, vec![30, 31]),
        ],
    );
    let mut bf = BinFile::new_from_reader(data, zkey_magic(), 1).unwrap();
    let expected: [Vec<u8>; 3] = [vec![10, 11], vec![20, 21], vec![30, 31]];
    for (i, want) in expected.iter().enumerate() {
        bf.start_read_section(7, Some(i as u32)).unwrap();
        let got = bf.read_bytes(2).unwrap();
        assert_eq!(&got, want);
        bf.end_read_section(None).unwrap();
    }
    // An out-of-range index falls back to the first occurrence.
    bf.start_read_section(7, Some(5)).unwrap();
    assert_eq!(bf.read_bytes(2).unwrap(), vec![10, 11]);
    bf.end_read_section(None).unwrap();
    // So does an absent index.
    bf.start_read_section(7, None).unwrap();
    assert_eq!(bf.read_bytes(2).unwrap(), vec![10, 11]);
    bf.end_read_section(None).unwrap();
}

#[test]
fn round_trip_reproduces_payloads() {
    let sections: Vec<(u32, Vec<u8>)> = vec![
        (2, vec![0xaa; 476]),
        (3, Vec::new()),
        (4, (0u8..=255).collect()),
        (3, vec![1, 2, 3, 4, 5]),
    ];
    let data = build_container(b"zkey", 1, &sections);
    let mut bf = BinFile::new_from_reader(data, zkey_magic(), 1).unwrap();
    for ty in [2u32, 3, 4] {
        let descriptors = bf.sections(ty);
        let expected_payloads: Vec<&Vec<u8>> = sections
            .iter()
            .filter(|(t, _)| *t == ty)
            .map(|(_, p)| p)
            .collect();
        assert_eq!(descriptors.len(), expected_payloads.len());
        for (i, want) in expected_payloads.iter().enumerate() {
            bf.start_read_section(ty, Some(i as u32)).unwrap();
            let got = bf.read_bytes(want.len() as u64).unwrap();
            assert_eq!(&got, *want);
            bf.end_read_section(None).unwrap();
        }
    }
}

#[test]
fn missing_section_is_not_found() {
    let data = build_container(b"zkey", 1, &[(2, vec![1, 2, 3])]);
    let mut bf = BinFile::new_from_reader(data, zkey_magic(), 1).unwrap();
    let r = bf.start_read_section(99, None);
    assert!(matches!(r, Err(ZKeyError::NotFoundError)));
}

#[test]
fn read_past_declared_size_is_out_of_bounds() {
    let data = build_container(b"zkey", 1, &[(6, vec![1, 2, 3, 4])]);
    let mut bf = BinFile::new_from_reader(data, zkey_magic(), 1).unwrap();
    bf.start_read_section(6, None).unwrap();
    assert!(matches!(bf.read_bytes(5), Err(ZKeyError::OutOfBoundsError)));
    // The failed read consumed nothing; the full payload is still there.
    assert_eq!(bf.read_bytes(2).unwrap(), vec![1, 2]);
    assert!(matches!(bf.read_bytes(3), Err(ZKeyError::OutOfBoundsError)));
    assert_eq!(bf.read_bytes(2).unwrap(), vec![3, 4]);
    bf.end_read_section(None).unwrap();
}

#[test]
fn truncated_section_read_is_io_error() {
    // The single section claims 100 bytes but the file ends after 5.
    let mut data = build_container(b"zkey", 1, &[(2, vec![1, 2, 3, 4, 5])]);
    let size_field = 16;
    data[size_field] = 100;
    let mut bf = BinFile::new_from_reader(data, zkey_magic(), 1).unwrap();
    bf.start_read_section(2, None).unwrap();
    assert!(matches!(bf.read_bytes(100), Err(ZKeyError::IoError)));
    // Within the remaining bytes a read still succeeds.
    assert_eq!(bf.read_bytes(5).unwrap(), vec![1, 2, 3, 4, 5]);
    // Past the end of the data, but within the declared size: an I/O failure,
    // not a short read.
    assert!(matches!(bf.read_bytes(1), Err(ZKeyError::IoError)));
}

#[test]
fn huge_declared_size_is_handled() {
    // The single section claims u64::MAX bytes; opening still succeeds (no
    // entry follows), reads within the real data succeed, and the first read
    // past the end of the data is an I/O failure.
    let mut data = build_container(b"zkey", 1, &[(2, vec![1, 2, 3])]);
    for b in &mut data[16..24] {
        *b = 0xff;
    }
    let mut bf = BinFile::new_from_reader(data, zkey_magic(), 1).unwrap();
    bf.start_read_section(2, None).unwrap();
    assert_eq!(bf.read_bytes(3).unwrap(), vec![1, 2, 3]);
    assert!(matches!(bf.read_bytes(1), Err(ZKeyError::IoError)));
    // Three bytes are already consumed, so u64::MAX more would cross even the
    // declared size: the section-boundary check comes first.
    assert!(matches!(
        bf.read_bytes(u64::MAX),
        Err(ZKeyError::OutOfBoundsError)
    ));
    assert!(bf.end_read_section(Some(false)).is_ok());
}

#[test]
fn end_section_checks_exact_consumption() {
    let data = build_container(b"zkey", 1, &[(2, vec![1, 2, 3, 4])]);
    let mut bf = BinFile::new_from_reader(data, zkey_magic(), 1).unwrap();
    bf.start_read_section(2, None).unwrap();
    let _ = bf.read_bytes(2).unwrap();
    // Two of four declared bytes were consumed: the default check refuses.
    assert!(matches!(
        bf.end_read_section(None),
        Err(ZKeyError::FormatError)
    ));
    // The scope is cleared regardless; with the check disabled the same
    // sequence passes.
    bf.start_read_section(2, None).unwrap();
    let _ = bf.read_bytes(2).unwrap();
    assert!(bf.end_read_section(Some(false)).is_ok());
    // Exact consumption satisfies an explicit check.
    bf.start_read_section(2, None).unwrap();
    let _ = bf.read_bytes(4).unwrap();
    assert!(bf.end_read_section(Some(true)).is_ok());
}

#[test]
fn little_endian_reads_decode_exactly() {
    let payload = vec![
        0x78, 0x56, 0x34, 0x12, // u32 0x12345678
        0xef, 0xcd, 0xab, 0x89, 0x67, 0x45, 0x23, 0x01, // u64 0x0123456789abcdef
    ];
    let data = build_container(b"zkey", 1, &[(8, payload)]);
    let mut bf = BinFile::new_from_reader(data, zkey_magic(), 1).unwrap();
    bf.start_read_section(8, None).unwrap();
    assert_eq!(bf.read_u32_le().unwrap(), 0x12345678);
    assert_eq!(bf.read_u64_le().unwrap(), 0x0123456789abcdef);
    bf.end_read_section(None).unwrap();
}
