//! The fflonk proving-key header: section-type identifiers of the zkey
//! container and the decoder that pulls the header section's fixed field
//! sequence out of an open container.

use vstd::prelude::*;

use crate::bigint::biguint_value;
use crate::bin_utils::{occ, read_step_err, BinFile, Section, ZKeyError};
use crate::bytes::le_bytes;

verus! {

pub const ZKEY_FF_HEADER_SECTION: u32 = 2;

pub const ZKEY_FF_ADDITIONS_SECTION: u32 = 3;

pub const ZKEY_FF_A_MAP_SECTION: u32 = 4;

pub const ZKEY_FF_B_MAP_SECTION: u32 = 5;

pub const ZKEY_FF_C_MAP_SECTION: u32 = 6;

pub const ZKEY_FF_QL_SECTION: u32 = 7;

pub const ZKEY_FF_QR_SECTION: u32 = 8;

pub const ZKEY_FF_QM_SECTION: u32 = 9;

pub const ZKEY_FF_QO_SECTION: u32 = 10;

pub const ZKEY_FF_QC_SECTION: u32 = 11;

pub const ZKEY_FF_SIGMA1_SECTION: u32 = 12;

pub const ZKEY_FF_SIGMA2_SECTION: u32 = 13;

pub const ZKEY_FF_SIGMA3_SECTION: u32 = 14;

pub const ZKEY_FF_LAGRANGE_SECTION: u32 = 15;

pub const ZKEY_FF_PTAU_SECTION: u32 = 16;

pub const ZKEY_FF_C0_SECTION: u32 = 17;

/// The protocol identifier recorded in every decoded fflonk header.
pub const FFLONK_PROTOCOL_ID: u32 = 10;

/// The newest container format version this reader accepts.
pub const ZKEY_MAX_VERSION: u32 = 1;

/// The ASCII bytes of the magic tag "zkey".
pub open spec fn zkey_magic() -> Seq<u8> {
    seq![122u8, 107u8, 101u8, 121u8]
}

/// The base-field element width: the header's first 4-byte field.
pub open spec fn hdr_n8q(data: Seq<u8>, off: int) -> nat {
    le_bytes(data.subrange(off, off + 4))
}

/// The scalar-field element width: the 4-byte field following the base-field
/// modulus blob.
pub open spec fn hdr_n8r(data: Seq<u8>, off: int) -> nat {
    let q = hdr_n8q(data, off) as int;
    le_bytes(data.subrange(off + 4 + q, off + 8 + q))
}

/// The exact number of payload bytes a header with the given element widths
/// occupies: two width fields, two modulus blobs, five counts, six
/// scalar-width constants, and two curve-point blobs of four and two
/// base-field elements.
pub open spec fn hdr_total(q: nat, r: nat) -> nat {
    28 + 7 * q + 7 * r
}

/// The first of two `Option`s that holds a value, if either does.
pub open spec fn step_or(a: Option<ZKeyError>, b: Option<ZKeyError>) -> Option<ZKeyError> {
    if a is Some {
        a
    } else {
        b
    }
}

/// The error of the first header-field read that fails, if any: the reads
/// consume, in order, the base-field width, the base-field modulus, the
/// scalar-field width, the scalar-field modulus, five 4-byte counts, six
/// scalar-width blobs, and two curve-point blobs.
pub open spec fn hdr_read_err(data: Seq<u8>, sec: Section) -> Option<ZKeyError> {
    let len = data.len() as int;
    let q = hdr_n8q(data, sec.offset as int);
    let r = hdr_n8r(data, sec.offset as int);
    let n8q_field = read_step_err(len, sec, 0, 4);
    let q_blob = read_step_err(len, sec, 4, q);
    let n8r_field = read_step_err(len, sec, 4 + q, 4);
    let r_blob = read_step_err(len, sec, 8 + q, r);
    let n_vars_field = read_step_err(len, sec, 8 + q + r, 4);
    let n_public_field = read_step_err(len, sec, 12 + q + r, 4);
    let domain_size_field = read_step_err(len, sec, 16 + q + r, 4);
    let n_additions_field = read_step_err(len, sec, 20 + q + r, 4);
    let n_constraints_field = read_step_err(len, sec, 24 + q + r, 4);
    let k1_blob = read_step_err(len, sec, 28 + q + r, r);
    let k2_blob = read_step_err(len, sec, 28 + q + 2 * r, r);
    let w3_blob = read_step_err(len, sec, 28 + q + 3 * r, r);
    let w4_blob = read_step_err(len, sec, 28 + q + 4 * r, r);
    let w8_blob = read_step_err(len, sec, 28 + q + 5 * r, r);
    let wr_blob = read_step_err(len, sec, 28 + q + 6 * r, r);
    let x2_blob = read_step_err(len, sec, 28 + q + 7 * r, 4 * q);
    let c0_blob = read_step_err(len, sec, 28 + 5 * q + 7 * r, 2 * q);
    step_or(
        n8q_field,
        step_or(
            q_blob,
            step_or(
                n8r_field,
                step_or(
                    r_blob,
                    step_or(
                        n_vars_field,
                        step_or(
                            n_public_field,
                            step_or(
                                domain_size_field,
                                step_or(
                                    n_additions_field,
                                    step_or(
                                        n_constraints_field,
                                        step_or(
                                            k1_blob,
                                            step_or(
                                                k2_blob,
                                                step_or(
                                                    w3_blob,
                                                    step_or(
                                                        w4_blob,
                                                        step_or(
                                                            w8_blob,
                                                            step_or(
                                                                wr_blob,
                                                                step_or(x2_blob, c0_blob),
                                                            ),
                                                        ),
                                                    ),
                                                ),
                                            ),
                                        ),
                                    ),
                                ),
                            ),
                        ),
                    ),
                ),
            ),
        ),
    )
}

/// How decoding the header section of `sec` ends: the first failing field
/// read's error, or `FormatError` when all fields were read but the section's
/// declared size is not exactly the bytes they consumed, or `None` when the
/// decode succeeds.
pub open spec fn hdr_err(data: Seq<u8>, sec: Section) -> Option<ZKeyError> {
    let q = hdr_n8q(data, sec.offset as int);
    let r = hdr_n8r(data, sec.offset as int);
    match hdr_read_err(data, sec) {
        Some(e) => Some(e),
        None => if hdr_total(q, r) != sec.size as nat {
            Some(ZKeyError::FormatError)
        } else {
            None
        },
    }
}

/// Field-by-field agreement of a decoded header with the header section's
/// bytes at offset `off`.
pub open spec fn hdr_matches(h: FflonkZkeyHeader, data: Seq<u8>, off: int) -> bool {
    let q = hdr_n8q(data, off) as int;
    let r = hdr_n8r(data, off) as int;
    &&& h.protocol_id == FFLONK_PROTOCOL_ID
    &&& h.n8q as nat == hdr_n8q(data, off)
    &&& biguint_value(h.q_prime) == le_bytes(data.subrange(off + 4, off + 4 + q))
    &&& biguint_value(h.r_prime) == le_bytes(data.subrange(off + 8 + q, off + 8 + q + r))
    &&& h.n_vars as nat == le_bytes(data.subrange(off + 8 + q + r, off + 12 + q + r))
    &&& h.n_public as nat == le_bytes(data.subrange(off + 12 + q + r, off + 16 + q + r))
    &&& h.domain_size as nat == le_bytes(data.subrange(off + 16 + q + r, off + 20 + q + r))
    &&& h.n_additions as nat == le_bytes(data.subrange(off + 20 + q + r, off + 24 + q + r))
    &&& h.n_constraints as nat == le_bytes(data.subrange(off + 24 + q + r, off + 28 + q + r))
    &&& h.k1@ == data.subrange(off + 28 + q + r, off + 28 + q + 2 * r)
    &&& h.k2@ == data.subrange(off + 28 + q + 2 * r, off + 28 + q + 3 * r)
    &&& h.w3@ == data.subrange(off + 28 + q + 3 * r, off + 28 + q + 4 * r)
    &&& h.w4@ == data.subrange(off + 28 + q + 4 * r, off + 28 + q + 5 * r)
    &&& h.w8@ == data.subrange(off + 28 + q + 5 * r, off + 28 + q + 6 * r)
    &&& h.wr@ == data.subrange(off + 28 + q + 6 * r, off + 28 + q + 7 * r)
    &&& h.X2@ == data.subrange(off + 28 + q + 7 * r, off + 28 + 5 * q + 7 * r)
    &&& h.C0@ == data.subrange(off + 28 + 5 * q + 7 * r, off + 28 + 7 * q + 7 * r)
}

/// Ties a proving-key file's path to the reader that will decode its bytes.
pub struct ZKeyUtils {
    pub file_path: String,
}

impl ZKeyUtils {
    /// Records the path of a proving-key file whose bytes a caller loads.
    pub fn new(file_path: String) -> (r: ZKeyUtils)
        ensures
            r.file_path == file_path,
    {
        ZKeyUtils { file_path }
    }

    /// Opens `data` as a zkey container (magic tag "zkey", versions up to
    /// `ZKEY_MAX_VERSION`) and decodes its header section.
    pub fn load_fflonk_zkey_header(data: Vec<u8>) -> (r: Result<FflonkZkeyHeader, ZKeyError>)
        ensures
            ({
                match crate::bin_utils::spec_open(data@, zkey_magic(), ZKEY_MAX_VERSION) {
                    Ok(dir) => ({
                        let occs = occ(dir, ZKEY_FF_HEADER_SECTION);
                        match r {
                            Ok(h) => {
                                &&& occs.len() > 0
                                &&& hdr_err(data@, occs[0]) is None
                                &&& hdr_matches(h, data@, occs[0].offset as int)
                            },
                            Err(e) => {
                                ||| (occs.len() == 0 && e == ZKeyError::NotFoundError)
                                ||| (occs.len() > 0 && Some(e) == hdr_err(data@, occs[0]))
                            },
                        }
                    }),
                    Err(eo) => r matches Err(e2) && e2 == eo,
                }
            }),
    {
        let mut magic: Vec<u8> = Vec::new();
        magic.push(122);
        magic.push(107);
        magic.push(101);
        magic.push(121);
        proof {
            assert(magic@ =~= zkey_magic());
        }
        match BinFile::new_from_reader(data, magic, ZKEY_MAX_VERSION) {
            Ok(mut bin_file) => FflonkZkeyHeader::load_fflonk_zkey_header(&mut bin_file),
            Err(e) => Err(e),
        }
    }
}

/// The decoded header section of a zkey container: field-element widths and
/// moduli, circuit dimensions, and the raw blobs of the scalar constants and
/// curve points.
#[allow(non_snake_case)]
pub struct FflonkZkeyHeader {
    pub protocol_id: u32,
    pub q_prime: num_bigint::BigUint,
    pub n8q: u32,
    pub r_prime: num_bigint::BigUint,
    pub n_vars: u32,
    pub n_public: u32,
    pub domain_size: u32,
    pub n_additions: u32,
    pub n_constraints: u32,
    pub k1: Vec<u8>,
    pub k2: Vec<u8>,
    pub w3: Vec<u8>,
    pub w4: Vec<u8>,
    pub w8: Vec<u8>,
    pub wr: Vec<u8>,
    pub X2: Vec<u8>,
    pub C0: Vec<u8>,
}

/// Reads the header's fixed field sequence from the active read scope,
/// leaving the scope open.
#[verifier::rlimit(100)]
fn decode_fields(bin_file: &mut BinFile) -> (r: Result<FflonkZkeyHeader, ZKeyError>)
    requires
        old(bin_file).wf(),
        old(bin_file).scope() is Some,
        old(bin_file).scope_consumed() == 0,
    ensures
        final(bin_file).wf(),
        final(bin_file).bytes() == old(bin_file).bytes(),
        final(bin_file).magic() == old(bin_file).magic(),
        final(bin_file).dir() == old(bin_file).dir(),
        final(bin_file).scope() == old(bin_file).scope(),
        ({
            let sec = old(bin_file).scope()->Some_0;
            let data = old(bin_file).bytes();
            match r {
                Ok(h) => {
                    &&& hdr_read_err(data, sec) is None
                    &&& final(bin_file).scope_consumed() == hdr_total(
                        hdr_n8q(data, sec.offset as int),
                        hdr_n8r(data, sec.offset as int),
                    )
                    &&& hdr_matches(h, data, sec.offset as int)
                },
                Err(e) => Some(e) == hdr_read_err(data, sec),
            }
        }),
{
    let n8q = match bin_file.read_u32_le() {
        Ok(v) => v,
        Err(e) => {
            return Err(e);
        },
    };
    let q_bytes = match bin_file.read_bytes(n8q as u64) {
        Ok(v) => v,
        Err(e) => {
            return Err(e);
        },
    };
    let q_prime = num_bigint::BigUint::from_bytes_le(q_bytes.as_slice());
    let n8r = match bin_file.read_u32_le() {
        Ok(v) => v,
        Err(e) => {
            return Err(e);
        },
    };
    let r_bytes = match bin_file.read_bytes(n8r as u64) {
        Ok(v) => v,
        Err(e) => {
            return Err(e);
        },
    };
    let r_prime = num_bigint::BigUint::from_bytes_le(r_bytes.as_slice());
    let n_vars = match bin_file.read_u32_le() {
        Ok(v) => v,
        Err(e) => {
            return Err(e);
        },
    };
    let n_public = match bin_file.read_u32_le() {
        Ok(v) => v,
        Err(e) => {
            return Err(e);
        },
    };
    let domain_size = match bin_file.read_u32_le() {
        Ok(v) => v,
        Err(e) => {
            return Err(e);
        },
    };
    let n_additions = match bin_file.read_u32_le() {
        Ok(v) => v,
        Err(e) => {
            return Err(e);
        },
    };
    let n_constraints = match bin_file.read_u32_le() {
        Ok(v) => v,
        Err(e) => {
            return Err(e);
        },
    };
    let k1 = match bin_file.read_bytes(n8r as u64) {
        Ok(v) => v,
        Err(e) => {
            return Err(e);
        },
    };
    let k2 = match bin_file.read_bytes(n8r as u64) {
        Ok(v) => v,
        Err(e) => {
            return Err(e);
        },
    };
    let w3 = match bin_file.read_bytes(n8r as u64) {
        Ok(v) => v,
        Err(e) => {
            return Err(e);
        },
    };
    let w4 = match bin_file.read_bytes(n8r as u64) {
        Ok(v) => v,
        Err(e) => {
            return Err(e);
        },
    };
    let w8 = match bin_file.read_bytes(n8r as u64) {
        Ok(v) => v,
        Err(e) => {
            return Err(e);
        },
    };
    let wr = match bin_file.read_bytes(n8r as u64) {
        Ok(v) => v,
        Err(e) => {
            return Err(e);
        },
    };
    let x2 = match bin_file.read_bytes(4 * (n8q as u64)) {
        Ok(v) => v,
        Err(e) => {
            return Err(e);
        },
    };
    let c0 = match bin_file.read_bytes(2 * (n8q as u64)) {
        Ok(v) => v,
        Err(e) => {
            return Err(e);
        },
    };
    Ok(
        FflonkZkeyHeader {
            protocol_id: FFLONK_PROTOCOL_ID,
            q_prime,
            n8q,
            r_prime,
            n_vars,
            n_public,
            domain_size,
            n_additions,
            n_constraints,
            k1,
            k2,
            w3,
            w4,
            w8,
            wr,
            X2: x2,
            C0: c0,
        },
    )
}

impl FflonkZkeyHeader {
    /// Decodes the header section of an open container into a header record:
    /// opens a read scope on the first header-section occurrence, reads the
    /// fixed field sequence, and closes the scope, which checks that the
    /// fields consumed exactly the section's declared size.
    pub fn load_fflonk_zkey_header(bin_file: &mut BinFile) -> (r: Result<
        FflonkZkeyHeader,
        ZKeyError,
    >)
        requires
            old(bin_file).wf(),
            old(bin_file).scope() is None,
        ensures
            final(bin_file).wf(),
            final(bin_file).bytes() == old(bin_file).bytes(),
            final(bin_file).magic() == old(bin_file).magic(),
            final(bin_file).dir() == old(bin_file).dir(),
            final(bin_file).scope() is None,
            ({
                let data = old(bin_file).bytes();
                let occs = occ(old(bin_file).dir(), ZKEY_FF_HEADER_SECTION);
                match r {
                    Ok(h) => {
                        &&& occs.len() > 0
                        &&& hdr_err(data, occs[0]) is None
                        &&& hdr_matches(h, data, occs[0].offset as int)
                    },
                    Err(e) => {
                        ||| (occs.len() == 0 && e == ZKeyError::NotFoundError)
                        ||| (occs.len() > 0 && Some(e) == hdr_err(data, occs[0]))
                    },
                }
            }),
    {
        match bin_file.start_read_section(ZKEY_FF_HEADER_SECTION, None) {
            Ok(()) => {},
            Err(e) => {
                return Err(e);
            },
        }
        match decode_fields(bin_file) {
            Ok(h) => {
                match bin_file.end_read_section(None) {
                    Ok(()) => Ok(h),
                    Err(e) => Err(e),
                }
            },
            Err(e) => {
                let _ = bin_file.end_read_section(Some(false));
                Err(e)
            },
        }
    }
}

} // verus!
