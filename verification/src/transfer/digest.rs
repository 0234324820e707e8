//! SHA-256 of a stream of bytes.
use sha2::Digest;
use vstd::prelude::*;

verus! {

/// A SHA-256 computation that takes its bytes piece by piece, as
/// `sha2::Sha256` keeps it.
#[verifier::external_body]
pub struct Hasher {
    state: sha2::Sha256,
}

/// The bytes that a computation has taken in.
pub uninterp spec fn absorbed(hasher: Hasher) -> Seq<u8>;

/// The SHA-256 of some bytes in lower-case hexadecimal.
pub uninterp spec fn sha256_hex(bytes: Seq<u8>) -> Seq<char>;

/// `Digest::new` of `sha2::Sha256`: a computation that has taken in nothing.
#[verifier::external_body]
pub(crate) fn new_hasher() -> (hasher: Hasher)
    ensures
        absorbed(hasher) == Seq::<u8>::empty(),
{
    Hasher { state: sha2::Sha256::new() }
}

/// `Digest::update` of `sha2::Sha256`: takes in more bytes behind those before.
#[verifier::external_body]
pub(crate) fn absorb(hasher: &mut Hasher, bytes: &Vec<u8>)
    ensures
        absorbed(*final(hasher)) == absorbed(*old(hasher)) + bytes@,
{
    hasher.state.update(bytes)
}

/// `Digest::finalize` of `sha2::Sha256`, shown by `LowerHex`: the SHA-256 of the
/// bytes taken in. Which text that is, is left to the name of the result.
#[verifier::external_body]
pub(crate) fn hex_digest(hasher: Hasher) -> (text: String)
    ensures
        text@ == sha256_hex(absorbed(hasher)),
{
    format!("{:x}", hasher.state.finalize())
}

} // verus!
