//! Little-endian byte-level encoding: the specification of what an unsigned
//! little-endian integer of any width means, and verified readers for the
//! 4-byte and 8-byte widths the container format uses.

use vstd::prelude::*;

verus! {

/// The unsigned integer that a byte sequence denotes in little-endian order:
/// the first byte is the least significant.
pub open spec fn le_bytes(s: Seq<u8>) -> nat
    decreases s.len(),
{
    if s.len() == 0 {
        0
    } else {
        s[0] as nat + 256 * le_bytes(s.subrange(1, s.len() as int))
    }
}

/// 256 to the power `n`: the number of values a byte sequence of length `n`
/// can denote.
pub open spec fn pow256(n: nat) -> nat
    decreases n,
{
    if n == 0 {
        1
    } else {
        256 * pow256((n - 1) as nat)
    }
}

/// Unfolds `le_bytes` on a 4-byte sequence into an explicit polynomial.
pub proof fn lemma_le_bytes_4(s: Seq<u8>)
    requires
        s.len() == 4,
    ensures
        le_bytes(s) == s[0] as nat + 256 * (s[1] as nat + 256 * (s[2] as nat + 256 * (
        s[3] as nat))),
{
    let s1 = s.subrange(1, 4);
    let s2 = s1.subrange(1, 3);
    let s3 = s2.subrange(1, 2);
    let s4 = s3.subrange(1, 1);
    assert(s2 =~= s.subrange(2, 4));
    assert(s3 =~= s.subrange(3, 4));
    assert(s4.len() == 0);
    assert(le_bytes(s4) == 0);
    assert(le_bytes(s3) == s[3] as nat + 256 * le_bytes(s4));
    assert(le_bytes(s2) == s[2] as nat + 256 * le_bytes(s3));
    assert(le_bytes(s1) == s[1] as nat + 256 * le_bytes(s2));
    assert(le_bytes(s) == s[0] as nat + 256 * le_bytes(s1));
}

/// Unfolds `le_bytes` on an 8-byte sequence into an explicit polynomial.
pub proof fn lemma_le_bytes_8(s: Seq<u8>)
    requires
        s.len() == 8,
    ensures
        le_bytes(s) == s[0] as nat + 256 * (s[1] as nat + 256 * (s[2] as nat + 256 * (
        s[3] as nat + 256 * (s[4] as nat + 256 * (s[5] as nat + 256 * (s[6] as nat + 256 * (
        s[7] as nat))))))),
{
    let s1 = s.subrange(1, 8);
    let s2 = s1.subrange(1, 7);
    let s3 = s2.subrange(1, 6);
    let s4 = s3.subrange(1, 5);
    let s5 = s4.subrange(1, 4);
    let s6 = s5.subrange(1, 3);
    let s7 = s6.subrange(1, 2);
    let s8 = s7.subrange(1, 1);
    assert(s2 =~= s.subrange(2, 8));
    assert(s3 =~= s.subrange(3, 8));
    assert(s4 =~= s.subrange(4, 8));
    assert(s5 =~= s.subrange(5, 8));
    assert(s6 =~= s.subrange(6, 8));
    assert(s7 =~= s.subrange(7, 8));
    assert(s8.len() == 0);
    assert(le_bytes(s8) == 0);
    assert(le_bytes(s7) == s[7] as nat + 256 * le_bytes(s8));
    assert(le_bytes(s6) == s[6] as nat + 256 * le_bytes(s7));
    assert(le_bytes(s5) == s[5] as nat + 256 * le_bytes(s6));
    assert(le_bytes(s4) == s[4] as nat + 256 * le_bytes(s5));
    assert(le_bytes(s3) == s[3] as nat + 256 * le_bytes(s4));
    assert(le_bytes(s2) == s[2] as nat + 256 * le_bytes(s3));
    assert(le_bytes(s1) == s[1] as nat + 256 * le_bytes(s2));
}

/// The values of `pow256` at the two widths the container format uses.
pub proof fn lemma_pow256_4_8()
    ensures
        pow256(4) == 0x1_0000_0000,
        pow256(8) == 0x1_0000_0000_0000_0000,
{
    assert(pow256(0) == 1);
    assert(pow256(1) == 256);
    assert(pow256(2) == 0x1_0000);
    assert(pow256(3) == 0x100_0000);
    assert(pow256(4) == 0x1_0000_0000);
    assert(pow256(5) == 0x100_0000_0000);
    assert(pow256(6) == 0x1_0000_0000_0000);
    assert(pow256(7) == 0x100_0000_0000_0000);
}

/// The `w`-byte little-endian encoding of `v`, least significant byte first.
pub open spec fn enc_le(v: nat, w: nat) -> Seq<u8>
    decreases w,
{
    if w == 0 {
        Seq::empty()
    } else {
        seq![(v % 256) as u8] + enc_le(v / 256, (w - 1) as nat)
    }
}

/// An encoding is as long as its width.
pub proof fn lemma_enc_le_len(v: nat, w: nat)
    ensures
        enc_le(v, w).len() == w,
    decreases w,
{
    if w > 0 {
        lemma_enc_le_len(v / 256, (w - 1) as nat);
    }
}

/// Decoding an encoding gives the value back, when the value fits the width.
pub proof fn lemma_le_bytes_enc(v: nat, w: nat)
    requires
        v < pow256(w),
    ensures
        le_bytes(enc_le(v, w)) == v,
    decreases w,
{
    if w > 0 {
        let d = v / 256;
        let m = v % 256;
        vstd::arithmetic::div_mod::lemma_fundamental_div_mod(v as int, 256);
        assert(v == 256 * d + m);
        if d >= pow256((w - 1) as nat) {
            assert(256 * d >= 256 * pow256((w - 1) as nat)) by (nonlinear_arith)
                requires
                    d >= pow256((w - 1) as nat),
            ;
            assert(false);
        }
        lemma_le_bytes_enc(d, (w - 1) as nat);
        lemma_enc_le_len(d, (w - 1) as nat);
        let s = enc_le(v, w);
        assert(s[0] == (m as u8));
        assert(s.subrange(1, s.len() as int) =~= enc_le(d, (w - 1) as nat));
        assert(le_bytes(s) == m + 256 * d);
    }
}

/// Reads the 4-byte little-endian unsigned integer at `pos` in `data`.
pub fn le_u32_at(data: &Vec<u8>, pos: usize) -> (r: u32)
    requires
        pos + 4 <= data@.len(),
    ensures
        r as nat == le_bytes(data@.subrange(pos as int, pos as int + 4)),
{
    let len: usize = data.len();
    assert(pos + 4 <= len);
    let b0 = data[pos] as u32;
    let b1 = data[pos + 1] as u32;
    let b2 = data[pos + 2] as u32;
    let b3 = data[pos + 3] as u32;
    let r = b0 + 256 * (b1 + 256 * (b2 + 256 * b3));
    proof {
        let s = data@.subrange(pos as int, pos as int + 4);
        lemma_le_bytes_4(s);
    }
    r
}

/// Reads the 8-byte little-endian unsigned integer at `pos` in `data`.
pub fn le_u64_at(data: &Vec<u8>, pos: usize) -> (r: u64)
    requires
        pos + 8 <= data@.len(),
    ensures
        r as nat == le_bytes(data@.subrange(pos as int, pos as int + 8)),
{
    let len: usize = data.len();
    assert(pos + 8 <= len);
    let b0 = data[pos] as u64;
    let b1 = data[pos + 1] as u64;
    let b2 = data[pos + 2] as u64;
    let b3 = data[pos + 3] as u64;
    let b4 = data[pos + 4] as u64;
    let b5 = data[pos + 5] as u64;
    let b6 = data[pos + 6] as u64;
    let b7 = data[pos + 7] as u64;
    let r = b0 + 256 * (b1 + 256 * (b2 + 256 * (b3 + 256 * (b4 + 256 * (b5 + 256 * (b6 + 256
        * b7))))));
    proof {
        let s = data@.subrange(pos as int, pos as int + 8);
        lemma_le_bytes_8(s);
    }
    r
}

} // verus!
