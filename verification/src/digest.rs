//! The streaming-integrity digest: SHA-256 over the payload bytes exactly as
//! transmitted.

use vstd::prelude::*;

verus! {

/// The SHA-256 digest of a byte sequence. The computation belongs to the
/// sha2 crate; here it only has a name.
pub uninterp spec fn sha256_of(bytes: Seq<u8>) -> Seq<u8>;

/// The digest as exactly 32 bytes. sha2's SHA-256 output is 32 bytes long,
/// so this agrees with `sha256_of`; the fixed length makes frame sizes plain.
pub open spec fn digest_of(bytes: Seq<u8>) -> Seq<u8> {
    Seq::new(32, |i: int| if 0 <= i < sha256_of(bytes).len() {
        sha256_of(bytes)[i]
    } else {
        0u8
    })
}

/// The wire form of a hash frame: `=` followed by the 32 digest bytes.
pub open spec fn hash_frame(payload: Seq<u8>) -> Seq<u8> {
    seq![crate::wire::INSTR_HASH] + digest_of(payload)
}

/// Relies on sha2's `Sha256` (through the `Digest` trait): the digest is a
/// function of the input bytes alone, and is 32 bytes long.
#[verifier::external_body]
pub(crate) fn sha256(bytes: &Vec<u8>) -> (r: Vec<u8>)
    ensures
        r@ == sha256_of(bytes@),
        r@ == digest_of(bytes@),
{
    <sha2::Sha256 as sha2::Digest>::digest(bytes.as_slice()).to_vec()
}

} // verus!
