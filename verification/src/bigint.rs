//! Trusted interface to the num_bigint crate, which supplies the
//! arbitrary-precision unsigned integers holding a header's field moduli.

use vstd::prelude::*;

use crate::bytes::le_bytes;

verus! {

#[verifier::external_type_specification]
#[verifier::external_body]
pub struct ExBigUint(num_bigint::BigUint);

/// The natural number that a `BigUint` holds.
pub uninterp spec fn biguint_value(b: num_bigint::BigUint) -> nat;

/// Relies on num_bigint::BigUint::from_bytes_le: the returned integer is the
/// little-endian interpretation of the byte slice.
pub assume_specification[ num_bigint::BigUint::from_bytes_le ](bytes: &[u8]) -> (r:
    num_bigint::BigUint)
    ensures
        biguint_value(r) == le_bytes(bytes@),
;

} // verus!
