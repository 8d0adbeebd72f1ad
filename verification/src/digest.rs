//! Digests and checksums of byte strings.

use vstd::prelude::*;

verus! {

/// The SHA-224 digest of `data`, as the `sha2` crate computes it.
pub uninterp spec fn sha224_digest(data: Seq<u8>) -> Seq<u8>;

/// The SHA-256 digest of `data`, as the `sha2` crate computes it.
pub uninterp spec fn sha256_digest(data: Seq<u8>) -> Seq<u8>;

/// The CRC-32 (IEEE) checksum of `data`, as the `crc32fast` crate computes it.
pub uninterp spec fn crc32_checksum(data: Seq<u8>) -> u32;

/// Calls `sha2::Sha224::digest`, whose output type holds 28 bytes.
#[verifier::external_body]
pub(crate) fn sha224(data: &[u8]) -> (digest: Vec<u8>)
    ensures
        digest@ == sha224_digest(data@),
        digest@.len() == 28,
{
    <sha2::Sha224 as sha2::Digest>::digest(data).to_vec()
}

/// Calls `sha2::Sha256::digest`, whose output type holds 32 bytes.
#[verifier::external_body]
pub(crate) fn sha256(data: &[u8]) -> (digest: Vec<u8>)
    ensures
        digest@ == sha256_digest(data@),
        digest@.len() == 32,
{
    <sha2::Sha256 as sha2::Digest>::digest(data).to_vec()
}

/// Calls `crc32fast::hash`.
#[verifier::external_body]
pub(crate) fn crc32(data: &[u8]) -> (sum: u32)
    ensures
        sum == crc32_checksum(data@),
{
    crc32fast::hash(data)
}

} // verus!
