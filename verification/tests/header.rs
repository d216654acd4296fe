use num_bigint::BigUint;
use zkey_reader::bin_utils::{BinFile, ZKeyError};
use zkey_reader::zkey_utils::{FflonkZkeyHeader, ZKeyUtils, FFLONK_PROTOCOL_ID};

fn push_u32_le(out: &mut Vec<u8>, v: u32) {
    out.push((v & 0xff) as u8);
    out.push(((v >> 8) & 0xff) as u8);
    out.push(((v >> 16) & 0xff) as u8);
    out.push(((v >> 24) & 0xff) as u8);
}

fn push_u64_le(out: &mut Vec<u8>, v: u64) {
    let mut x = v;
    let mut i = 0;
    while i < 8 {
        out.push((x & 0xff) as u8);
        x >>= 8;
        i += 1;
    }
}

fn build_container(magic: &[u8], version: u32, sections: &[(u32, Vec<u8>)]) -> Vec<u8> {
    let mut out: Vec<u8> = Vec::new();
    out.extend_from_slice(magic);
    push_u32_le(&mut out, version);
    push_u32_le(&mut out, sections.len() as u32);
    for (ty, payload) in sections {
        push_u32_le(&mut out, *ty);
        push_u64_le(&mut out, payload.len() as u64);
        out.extend_from_slice(payload);
    }
    out
}

/// A header payload with n8q = n8r = 32, the counts 10, 2, 16, 1, 8, and
/// each blob filled with its own repeating byte pattern.
fn sample_header_payload() -> Vec<u8> {
    let mut p: Vec<u8> = Vec::new();
    push_u32_le(&mut p, 32); // n8q
    p.extend_from_slice(&[0x11; 32]); // q_prime
    push_u32_le(&mut p, 32); // n8r
    p.extend_from_slice(&[0x22; 32]); // r_prime
    push_u32_le(&mut p, 10); // n_vars
    push_u32_le(&mut p, 2); // n_public
    push_u32_le(&mut p, 16); // domain_size
    push_u32_le(&mut p, 1); // n_additions
    push_u32_le(&mut p, 8); // n_constraints
    p.extend_from_slice(&[0x31; 32]); // k1
    p.extend_from_slice(&[0x32; 32]); // k2
    p.extend_from_slice(&[0x33; 32]); // w3
    p.extend_from_slice(&[0x34; 32]); // w4
    p.extend_from_slice(&[0x35; 32]); // w8
    p.extend_from_slice(&[0x36; 32]); // wr
    p.extend_from_slice(&[0x47; 128]); // X2, 4 * n8q
    p.extend_from_slice(&[0x58; 64]); // C0, 2 * n8q
    assert_eq!(p.len(), 28 + 7 * 32 + 7 * 32);
    p
}

fn check_sample_header(h: &FflonkZkeyHeader) {
    assert_eq!(h.protocol_id, FFLONK_PROTOCOL_ID);
    assert_eq!(h.n8q, 32);
    assert_eq!(h.q_prime, BigUint::from_bytes_le(&[0x11; 32]));
    assert_eq!(h.r_prime, BigUint::from_bytes_le(&[0x22; 32]));
    assert_eq!(h.n_vars, 10);
    assert_eq!(h.n_public, 2);
    assert_eq!(h.domain_size, 16);
    assert_eq!(h.n_additions, 1);
    assert_eq!(h.n_constraints, 8);
    assert_eq!(h.k1, vec![0x31; 32]);
    assert_eq!(h.k2, vec![0x32; 32]);
    assert_eq!(h.w3, vec![0x33; 32]);
    assert_eq!(h.w4, vec![0x34; 32]);
    assert_eq!(h.w8, vec![0x35; 32]);
    assert_eq!(h.wr, vec![0x36; 32]);
    assert_eq!(h.X2, vec![0x47; 128]);
    assert_eq!(h.C0, vec![0x58; 64]);
}

#[test]
fn load_header_end_to_end() {
    let data = build_container(b"zkey", 1, &[(2, sample_header_payload())]);
    let mut bf = BinFile::new_from_reader(data, b"zkey".to_vec(), 1).unwrap();
    let h = FflonkZkeyHeader::load_fflonk_zkey_header(&mut bf).unwrap();
    check_sample_header(&h);
}

#[test]
fn load_header_from_bytes_end_to_end() {
    let data = build_container(b"zkey", 1, &[(2, sample_header_payload())]);
    let h = ZKeyUtils::load_fflonk_zkey_header(data).unwrap();
    check_sample_header(&h);
}

#[test]
fn load_header_bad_magic() {
    let data = build_container(b"zkeX", 1, &[(2, sample_header_payload())]);
    let r = ZKeyUtils::load_fflonk_zkey_header(data);
    assert!(matches!(r, Err(ZKeyError::FormatError)));
}

#[test]
fn load_header_section_absent() {
    let data = build_container(b"zkey", 1, &[(3, vec![1, 2, 3])]);
    let r = ZKeyUtils::load_fflonk_zkey_header(data);
    assert!(matches!(r, Err(ZKeyError::NotFoundError)));
}

#[test]
fn load_header_size_mismatch_is_format_error() {
    // One byte more than the fields consume: the scope-end check refuses.
    let mut payload = sample_header_payload();
    payload.push(0);
    let data = build_container(b"zkey", 1, &[(2, payload)]);
    let r = ZKeyUtils::load_fflonk_zkey_header(data);
    assert!(matches!(r, Err(ZKeyError::FormatError)));
}

#[test]
fn load_header_truncated_is_io_error() {
    // The directory entry declares the full header size but the file ends
    // in the middle of the payload.
    let data = build_container(b"zkey", 1, &[(2, sample_header_payload())]);
    let truncated = data[..data.len() - 100].to_vec();
    let r = ZKeyUtils::load_fflonk_zkey_header(truncated);
    assert!(matches!(r, Err(ZKeyError::IoError)));
}

#[test]
fn load_header_width_crossing_section_is_out_of_bounds() {
    // n8q claims 1000 bytes inside a section of a few dozen: the modulus
    // read would cross the section's declared size.
    let mut payload: Vec<u8> = Vec::new();
    push_u32_le(&mut payload, 1000);
    payload.extend_from_slice(&[0; 40]);
    let data = build_container(b"zkey", 1, &[(2, payload)]);
    let r = ZKeyUtils::load_fflonk_zkey_header(data);
    assert!(matches!(r, Err(ZKeyError::OutOfBoundsError)));
}

#[test]
fn zkey_utils_new_records_path() {
    let z = ZKeyUtils::new(String::from("circuit.zkey"));
    assert_eq!(z.file_path, "circuit.zkey");
}
