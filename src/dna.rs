//! Genome generation: hashing a host-supplied random seed with the block
//! height, deriving a gender from a seed, and blending two parent genomes.

use vstd::prelude::*;
use parity_scale_codec::Encode;
use crate::types::Gender;

verus! {

/// The eight little-endian bytes of `n`.
pub open spec fn le_bytes_u64(n: u64) -> Seq<u8> {
    Seq::new(8, |i: int| (n >> ((8 * i) as u64)) as u8)
}

/// The bytes hashed to produce a genome: the seed followed by the block
/// number in little-endian order.
pub open spec fn seed_payload(seed: Seq<u8>, block_number: u64) -> Seq<u8> {
    seed + le_bytes_u64(block_number)
}

/// The four little-endian bytes of `n`.
pub open spec fn le_bytes_u32(n: u32) -> Seq<u8> {
    Seq::new(4, |i: int| (n >> ((8 * i) as u32)) as u8)
}

/// An optional `u32` as a tag byte, 0 for none and 1 for some, followed by
/// the value's bytes where there is one.
pub open spec fn option_u32_bytes(o: Option<u32>) -> Seq<u8> {
    match o {
        None => seq![0u8],
        Some(x) => seq![1u8] + le_bytes_u32(x),
    }
}

/// The bytes hashed to produce an account's random value: the seed, the
/// account id in little-endian order, then the optional transaction index.
pub open spec fn sender_payload(seed: Seq<u8>, sender: u64, extrinsic_index: Option<u32>) -> Seq<u8> {
    seed + le_bytes_u64(sender) + option_u32_bytes(extrinsic_index)
}

/// The 16-byte BLAKE2b digest of `data`.
pub uninterp spec fn blake2_128_of(data: Seq<u8>) -> Seq<u8>;

/// The genome generated from a random seed at a given block height.
pub open spec fn dna_from_seed(seed: Seq<u8>, block_number: u64) -> Seq<u8> {
    blake2_128_of(seed_payload(seed, block_number))
}

/// The gender derived from a random seed: the parity of its first byte.
pub open spec fn gender_from_seed(seed: Seq<u8>) -> Gender {
    if seed[0] % 2 == 0 {
        Gender::Male
    } else {
        Gender::Female
    }
}

/// One byte of a bred genome: where a bit of `mask` is set the bit comes
/// from `a`, elsewhere from `b`.
pub open spec fn mix_byte(mask: u8, a: u8, b: u8) -> u8 {
    (mask & a) | (!mask & b)
}

/// A bred genome, byte by byte.
pub open spec fn mix_dna(mask: Seq<u8>, a: Seq<u8>, b: Seq<u8>) -> Seq<u8> {
    Seq::new(mask.len(), |i: int| mix_byte(mask[i], a[i], b[i]))
}

/// Bit `k` of `x`.
pub open spec fn bit_of(x: u8, k: u8) -> bool {
    (x >> k) & 1u8 == 1u8
}

/// Relies on parity-scale-codec's `Encode` for `([u8; 32], u64)`: a byte
/// array of fixed size is written as its bytes with no length prefix, a `u64`
/// as its eight little-endian bytes, and a tuple as its fields in order.
#[verifier::external_body]
fn encode_seed_payload(seed: &[u8; 32], block_number: u64) -> (r: Vec<u8>)
    ensures
        r@ == seed_payload(seed@, block_number),
{
    (seed, block_number).encode()
}

/// Relies on parity-scale-codec's `Encode` for `([u8; 32], u64, Option<u32>)`:
/// the array as its bytes, the `u64` as eight little-endian bytes, the option
/// as byte 0 for `None` or byte 1 and four little-endian bytes for `Some`, the
/// tuple as its fields in order.
#[verifier::external_body]
fn encode_sender_payload(seed: &[u8; 32], sender: u64, extrinsic_index: Option<u32>) -> (r: Vec<u8>)
    ensures
        r@ == sender_payload(seed@, sender, extrinsic_index),
{
    (seed, sender, extrinsic_index).encode()
}

/// Relies on sp_core_hashing::blake2_128: the 16-byte BLAKE2b digest of the
/// input, a function of the input bytes alone.
#[verifier::external_body]
fn blake2_128(data: &[u8]) -> (r: [u8; 16])
    ensures
        r@ == blake2_128_of(data@),
{
    sp_core_hashing::blake2_128(data)
}

/// Generates a genome from a random seed and the current block height.
pub fn gen_dna(seed: &[u8; 32], block_number: u64) -> (r: [u8; 16])
    ensures
        r@ == dna_from_seed(seed@, block_number),
{
    let payload = encode_seed_payload(seed, block_number);
    blake2_128(payload.as_slice())
}

/// Sixteen random bytes for `sender`: the digest of a random seed, the
/// account and the index of the current transaction in its block.
pub fn random_value(seed: &[u8; 32], sender: u64, extrinsic_index: Option<u32>) -> (r: [u8; 16])
    ensures
        r@ == blake2_128_of(sender_payload(seed@, sender, extrinsic_index)),
{
    let payload = encode_sender_payload(seed, sender, extrinsic_index);
    blake2_128(payload.as_slice())
}

/// Derives a gender from a random seed.
pub fn gen_gender(seed: &[u8; 32]) -> (r: Gender)
    ensures
        r == gender_from_seed(seed@),
{
    if seed[0] % 2 == 0 {
        Gender::Male
    } else {
        Gender::Female
    }
}

/// Blends two genomes bit by bit, each bit chosen by `mask`.
pub fn mix_dna_bytes(mask: &[u8; 16], dna1: &[u8; 16], dna2: &[u8; 16]) -> (r: [u8; 16])
    ensures
        r@ == mix_dna(mask@, dna1@, dna2@),
{
    let mut new_dna: [u8; 16] = *mask;
    let mut i: usize = 0;
    while i < 16
        invariant
            i <= 16,
            new_dna@.len() == 16,
            forall|j: int| 0 <= j < i ==> new_dna@[j] == mix_byte(mask@[j], dna1@[j], dna2@[j]),
        decreases 16 - i,
    {
        let m = mask[i];
        new_dna[i] = (m & dna1[i]) | (!m & dna2[i]);
        i = i + 1;
    }
    assert(new_dna@ =~= mix_dna(mask@, dna1@, dna2@));
    new_dna
}

/// Every bit of a blended byte is the bit of `a` at that position where the
/// mask bit is set, and the bit of `b` where it is clear.
pub proof fn lemma_mix_byte_bit(mask: u8, a: u8, b: u8, k: u8)
    requires
        k < 8,
    ensures
        bit_of(mix_byte(mask, a, b), k) == if bit_of(mask, k) {
            bit_of(a, k)
        } else {
            bit_of(b, k)
        },
{
    assert((((mask & a) | (!mask & b)) >> k) & 1u8 == 1u8 <==> if (mask >> k) & 1u8 == 1u8 {
        (a >> k) & 1u8 == 1u8
    } else {
        (b >> k) & 1u8 == 1u8
    }) by (bit_vector)
        requires
            k < 8,
    ;
}

} // verus!
