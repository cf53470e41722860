//! The per-draw digest: the draw seed's bytes, hashed with the host's
//! BLAKE2b-128 so the randomness source can be keyed with a fixed-size,
//! collision-resistant value.

use vstd::prelude::*;

verus! {

/// The BLAKE2b-128 digest of a byte sequence, as `ink_env`'s hashing
/// computes it: a fixed function of the input bytes alone.
pub uninterp spec fn blake2x128_of(input: Seq<u8>) -> Seq<u8>;

/// A 64-bit integer as its eight little-endian bytes.
pub open spec fn le_u64_bytes(x: u64) -> Seq<u8> {
    seq![
        (x % 0x100) as u8,
        ((x / 0x100) % 0x100) as u8,
        ((x / 0x10000) % 0x100) as u8,
        ((x / 0x1000000) % 0x100) as u8,
        ((x / 0x100000000) % 0x100) as u8,
        ((x / 0x10000000000) % 0x100) as u8,
        ((x / 0x1000000000000) % 0x100) as u8,
        ((x / 0x100000000000000) % 0x100) as u8,
    ]
}

/// Relies on `ink_env::hash_bytes` with the `Blake2x128` hasher: the
/// sixteen-byte BLAKE2b-128 digest of the input, a function of the input
/// bytes alone.
#[verifier::external_body]
pub(crate) fn blake2x128(input: &Vec<u8>) -> (digest: Vec<u8>)
    ensures
        digest@ == blake2x128_of(input@),
        digest@.len() == 16,
{
    let mut output = [0u8; 16];
    ink_env::hash_bytes::<ink_env::hash::Blake2x128>(input.as_slice(), &mut output);
    output.to_vec()
}

/// A 64-bit integer broken into its eight little-endian bytes.
pub(crate) fn u64_le_bytes(x: u64) -> (r: Vec<u8>)
    ensures
        r@ == le_u64_bytes(x),
{
    let mut v: Vec<u8> = Vec::new();
    v.push((x % 0x100) as u8);
    v.push(((x / 0x100) % 0x100) as u8);
    v.push(((x / 0x10000) % 0x100) as u8);
    v.push(((x / 0x1000000) % 0x100) as u8);
    v.push(((x / 0x100000000) % 0x100) as u8);
    v.push(((x / 0x10000000000) % 0x100) as u8);
    v.push(((x / 0x1000000000000) % 0x100) as u8);
    v.push(((x / 0x100000000000000) % 0x100) as u8);
    proof {
        assert(v@ =~= le_u64_bytes(x));
    }
    v
}

} // verus!
