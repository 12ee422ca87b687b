//! The hash functions that fingerprints are made with, and sorting.

use vstd::prelude::*;

verus! {

/// The MD5 digest of `data`.
pub uninterp spec fn md5_digest(data: Seq<u8>) -> Seq<u8>;

/// `<md5::Md5 as md5::digest::Digest>::digest`: the 16-byte MD5 digest of
/// `data`, which depends on `data` alone.
#[verifier::external_body]
pub(crate) fn md5(data: &[u8]) -> (digest: [u8; 16])
    ensures
        digest@ == md5_digest(data@),
{
    <md5::Md5 as md5::digest::Digest>::digest(data).into()
}

/// The SHA-256 digest of `data`.
pub uninterp spec fn sha256_digest(data: Seq<u8>) -> Seq<u8>;

/// `<sha2::Sha256 as sha2::Digest>::digest`: the 32-byte SHA-256 digest of
/// `data`, which depends on `data` alone. Inputs whose length in bits does not
/// fit in 64 bits are left out.
#[verifier::external_body]
pub(crate) fn sha256(data: &[u8]) -> (digest: [u8; 32])
    requires
        data@.len() < 0x2000_0000_0000_0000,
    ensures
        digest@ == sha256_digest(data@),
{
    <sha2::Sha256 as sha2::Digest>::digest(data).into()
}

/// `<[u16]>::sort_unstable`: puts the values in ascending order, and neither
/// adds nor removes one.
#[verifier::external_body]
pub(crate) fn sort_values(values: &mut Vec<u16>)
    ensures
        final(values)@.to_multiset() == old(values)@.to_multiset(),
        forall|i: int, j: int|
            0 <= i <= j < final(values)@.len() ==> final(values)@[i] <= final(values)@[j],
{
    values.sort_unstable()
}

} // verus!
