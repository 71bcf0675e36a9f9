//! Identifier minting: collision-resistant 128-bit identifiers from an
//! injected entropy source plus the host's call counters, hashed to
//! fixed width.  The host supplies the entropy and counters; collision
//! handling stays with the stores that insert under the identifier.

use vstd::prelude::*;

verus! {

/// The 16-byte Blake2b digest of a byte string, named: it depends on the
/// bytes alone.
pub uninterp spec fn blake2_128_of(data: Seq<u8>) -> Seq<u8>;

/// Relies on sp_crypto_hashing::blake2_128: the 16-byte Blake2b digest
/// of the input, a function of the input bytes alone.
#[verifier::external_body]
fn blake2_128_digest(data: &Vec<u8>) -> (r: [u8; 16])
    ensures
        r@ == blake2_128_of(data@),
{
    sp_crypto_hashing::blake2_128(data.as_slice())
}

/// The bytes that are hashed into an identifier: the entropy, then the
/// extrinsic index and block number in little-endian order.
pub open spec fn spec_id_payload(entropy: Seq<u8>, extrinsic_index: u32, block_number: u64) -> Seq<
    u8,
> {
    entropy + seq![
        (extrinsic_index & 0xff) as u8,
        ((extrinsic_index >> 8) & 0xff) as u8,
        ((extrinsic_index >> 16) & 0xff) as u8,
        ((extrinsic_index >> 24) & 0xff) as u8,
        (block_number & 0xff) as u8,
        ((block_number >> 8) & 0xff) as u8,
        ((block_number >> 16) & 0xff) as u8,
        ((block_number >> 24) & 0xff) as u8,
        ((block_number >> 32) & 0xff) as u8,
        ((block_number >> 40) & 0xff) as u8,
        ((block_number >> 48) & 0xff) as u8,
        ((block_number >> 56) & 0xff) as u8,
    ]
}

/// A fresh 128-bit identifier: entropy and counters assembled into a
/// payload, hashed to sixteen bytes.
pub fn gen_id(entropy: &Vec<u8>, extrinsic_index: u32, block_number: u64) -> (r: [u8; 16])
    ensures
        r@ == blake2_128_of(spec_id_payload(entropy@, extrinsic_index, block_number)),
{
    let mut payload = crate::bytes_clone(entropy);
    payload.push((extrinsic_index & 0xff) as u8);
    payload.push(((extrinsic_index >> 8) & 0xff) as u8);
    payload.push(((extrinsic_index >> 16) & 0xff) as u8);
    payload.push(((extrinsic_index >> 24) & 0xff) as u8);
    payload.push((block_number & 0xff) as u8);
    payload.push(((block_number >> 8) & 0xff) as u8);
    payload.push(((block_number >> 16) & 0xff) as u8);
    payload.push(((block_number >> 24) & 0xff) as u8);
    payload.push(((block_number >> 32) & 0xff) as u8);
    payload.push(((block_number >> 40) & 0xff) as u8);
    payload.push(((block_number >> 48) & 0xff) as u8);
    payload.push(((block_number >> 56) & 0xff) as u8);
    proof {
        assert(payload@ =~= spec_id_payload(entropy@, extrinsic_index, block_number));
    }
    blake2_128_digest(&payload)
}

/// Sixteen bytes read as one little-endian 128-bit number.
pub open spec fn spec_id_from_bytes(b: Seq<u8>) -> int {
    b[0] + b[1] * 0x100 + b[2] * 0x10000 + b[3] * 0x1000000 + b[4] * 0x100000000 + b[5]
        * 0x10000000000 + b[6] * 0x1000000000000 + b[7] * 0x100000000000000 + b[8]
        * 0x10000000000000000 + b[9] * 0x1000000000000000000 + b[10] * 0x100000000000000000000
        + b[11] * 0x10000000000000000000000 + b[12] * 0x1000000000000000000000000 + b[13]
        * 0x100000000000000000000000000 + b[14] * 0x10000000000000000000000000000 + b[15]
        * 0x1000000000000000000000000000000
}

/// The identifier as the key type the stores use.
pub fn id_from_bytes(b: &[u8; 16]) -> (r: u128)
    ensures
        r as int == spec_id_from_bytes(b@),
{
    (b[0] as u128) + (b[1] as u128) * 0x100 + (b[2] as u128) * 0x10000 + (b[3] as u128) * 0x1000000
        + (b[4] as u128) * 0x100000000 + (b[5] as u128) * 0x10000000000 + (b[6] as u128)
        * 0x1000000000000 + (b[7] as u128) * 0x100000000000000 + (b[8] as u128)
        * 0x10000000000000000 + (b[9] as u128) * 0x1000000000000000000 + (b[10] as u128)
        * 0x100000000000000000000 + (b[11] as u128) * 0x10000000000000000000000 + (b[12] as u128)
        * 0x1000000000000000000000000 + (b[13] as u128) * 0x100000000000000000000000000 + (
    b[14] as u128) * 0x10000000000000000000000000000 + (b[15] as u128)
        * 0x1000000000000000000000000000000
}

} // verus!
