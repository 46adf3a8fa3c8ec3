//! The end-to-end check of a fetched object against its expected length and
//! SHA-256 digest.

use crate::config::DataConfig;
use crate::text::{eq_ignoring_case, same_ignoring_case};
use vstd::prelude::*;
use vstd::string::*;

verus! {

/// Why a fetched object was turned down.
#[derive(Clone, Debug, PartialEq, Eq)]
#[allow(inconsistent_fields)]
pub enum IntegrityError {
    /// The object has `actual` bytes where `expected` were announced.
    LengthMismatch { expected: u32, actual: usize },
    /// The object's digest is `actual` where `expected` was announced.
    DigestMismatch { expected: String, actual: String },
}

/// An `IntegrityError` as a mathematical value.
#[allow(inconsistent_fields)]
pub enum IntegrityErrorView {
    LengthMismatch { expected: u32, actual: nat },
    DigestMismatch { expected: Seq<char>, actual: Seq<char> },
}

impl View for IntegrityError {
    type V = IntegrityErrorView;

    open spec fn view(&self) -> IntegrityErrorView {
        match self {
            IntegrityError::LengthMismatch { expected, actual } => {
                IntegrityErrorView::LengthMismatch { expected: *expected, actual: *actual as nat }
            },
            IntegrityError::DigestMismatch { expected, actual } => {
                IntegrityErrorView::DigestMismatch { expected: expected@, actual: actual@ }
            },
        }
    }
}

/// The SHA-256 digest of `data`, written as hexadecimal digits.
pub uninterp spec fn sha256_hex(data: Seq<u8>) -> Seq<char>;

/// The verdict on an object of `actual_len` bytes with digest `digest`, where
/// `len` bytes with digest `hash` were announced. The length is looked at
/// first; digests are compared without regard to letter case.
pub open spec fn verdict(actual_len: nat, digest: Seq<char>, len: u32, hash: Seq<char>) -> Result<
    (),
    IntegrityErrorView,
> {
    if actual_len != len {
        Err(IntegrityErrorView::LengthMismatch { expected: len, actual: actual_len })
    } else if !same_ignoring_case(hash, digest) {
        Err(IntegrityErrorView::DigestMismatch { expected: hash, actual: digest })
    } else {
        Ok(())
    }
}

/// The verdict as a mathematical value.
pub open spec fn verdict_view(result: Result<(), IntegrityError>) -> Result<(), IntegrityErrorView> {
    match result {
        Ok(()) => Ok(()),
        Err(e) => Err(e@),
    }
}

/// Computes the SHA-256 digest of `data` with `sha256::digest`, which hashes
/// the bytes and writes the 32 bytes of the hash as hexadecimal digits. The
/// contract gives that text a name and claims nothing else about it.
#[verifier::external_body]
fn sha256_digest(data: &[u8]) -> (digest: String)
    ensures
        digest@ == sha256_hex(data@),
{
    sha256::digest(data)
}

/// Judges an object by its length and its digest, both already computed.
pub fn judge(actual_len: usize, digest: String, target: &DataConfig) -> (result: Result<
    (),
    IntegrityError,
>)
    ensures
        verdict_view(result) == verdict(actual_len as nat, digest@, target.len, target.hash@),
{
    let length_matches = actual_len == target.len as usize;
    let digest_matches = eq_ignoring_case(target.hash.as_str(), digest.as_str());
    if !length_matches {
        Err(IntegrityError::LengthMismatch { expected: target.len, actual: actual_len })
    } else if !digest_matches {
        Err(IntegrityError::DigestMismatch { expected: target.hash.clone(), actual: digest })
    } else {
        Ok(())
    }
}

/// Checks `data` against the announced length and digest.
pub fn verify(data: &[u8], target: &DataConfig) -> (result: Result<(), IntegrityError>)
    ensures
        verdict_view(result) == verdict(
            data@.len(),
            sha256_hex(data@),
            target.len,
            target.hash@,
        ),
        data@.len() != target.len ==> verdict_view(result) == Err::<(), _>(
            IntegrityErrorView::LengthMismatch { expected: target.len, actual: data@.len() },
        ),
        data@.len() == target.len && !same_ignoring_case(target.hash@, sha256_hex(data@))
            ==> verdict_view(result) == Err::<(), _>(
            IntegrityErrorView::DigestMismatch {
                expected: target.hash@,
                actual: sha256_hex(data@),
            },
        ),
        result is Ok <==> data@.len() == target.len && same_ignoring_case(
            target.hash@,
            sha256_hex(data@),
        ),
{
    let digest = sha256_digest(data);
    judge(data.len(), digest, target)
}

} // verus!
