//! The hash that names a content.

use vstd::prelude::*;
use crate::types::{ContentId, ContentIdView};

verus! {

/// The Blake2b digest of 256 bits of `data`.
pub uninterp spec fn blake2_256_digest(data: Seq<u8>) -> Seq<u8>;

/// Calls `sp_crypto_hashing::blake2_256`.  Trusted: the 32 bytes that it
/// returns are the digest of `data`, a function of `data` alone.
#[verifier::external_body]
pub(crate) fn blake2_256(data: &[u8]) -> (digest: [u8; 32])
    ensures
        digest@ == blake2_256_digest(data@),
{
    sp_crypto_hashing::blake2_256(data)
}

/// The prefix of every content identifier: the bytes of `cid:`.
pub open spec fn cid_prefix() -> Seq<u8> {
    seq![99u8, 105u8, 100u8, 58u8]
}

/// The identifier of the content with the given encoding.
pub open spec fn content_id_of(content: Seq<u8>) -> ContentIdView {
    ContentIdView { prefix: cid_prefix(), hash: blake2_256_digest(content) }
}

/// The identifier made of the prefix `cid:` and `digest`.
pub fn content_id_from_digest(digest: &[u8; 32]) -> (id: ContentId)
    ensures
        id@ == (ContentIdView { prefix: cid_prefix(), hash: digest@ }),
{
    let prefix: [u8; 4] = [99u8, 105u8, 100u8, 58u8];
    assert(prefix@ =~= cid_prefix());
    ContentId::new(prefix.as_slice(), digest.as_slice())
}

/// The identifier of the content with the given encoding: the prefix `cid:`
/// and the Blake2b digest of 256 bits of the encoding.
pub fn content_id(content: &[u8]) -> (id: ContentId)
    ensures
        id@ == content_id_of(content@),
{
    let digest = blake2_256(content);
    content_id_from_digest(&digest)
}

} // verus!
