//! Integrity checking of fetched artifacts: the artifact's SHA-256 digest,
//! hex-encoded, must equal the checksum the repository declares for the
//! package. An empty declared checksum means the package is unverifiable and
//! passes with a warning — a documented trust gap, preserved deliberately.

use vstd::prelude::*;

use crate::db::PackageInfo;
use sha2::Digest;

verus! {

/// The SHA-256 digest of a byte sequence, as `sha2` computes it; a function
/// of the bytes alone.
pub uninterp spec fn sha256_of(data: Seq<u8>) -> Seq<u8>;

/// The lowercase hexadecimal rendering of a byte sequence, as `hex` computes
/// it; a function of the bytes alone.
pub uninterp spec fn hex_of(data: Seq<u8>) -> Seq<char>;

/// Relies on `sha2::Sha256::digest`: the one-shot SHA-256 digest of the
/// input, 32 bytes, a function of the input bytes alone.
#[verifier::external_body]
fn sha256_bytes(data: &Vec<u8>) -> (r: Vec<u8>)
    ensures
        r@ == sha256_of(data@),
        r@.len() == 32,
{
    sha2::Sha256::digest(data.as_slice()).as_slice().to_vec()
}

/// Relies on `hex::encode`: two lowercase hexadecimal digits per input byte,
/// a function of the input bytes alone.
#[verifier::external_body]
fn hex_string(data: &Vec<u8>) -> (r: String)
    ensures
        r@ == hex_of(data@),
        r@.len() == 2 * data@.len(),
{
    hex::encode(data.as_slice())
}

/// The hex-encoded SHA-256 digest of `data`: the form checksums take in the
/// repository snapshot.
pub fn sha256_hex(data: &Vec<u8>) -> (r: String)
    ensures
        r@ == hex_of(sha256_of(data@)),
        r@.len() == 64,
{
    let digest = sha256_bytes(data);
    hex_string(&digest)
}

/// What checking an artifact against its package's declared checksum found.
pub enum VerifyOutcome {
    /// The package declares no checksum; nothing was checked (trust gap).
    SkippedNoChecksum,
    /// The computed digest equals the declared checksum.
    Verified,
    /// The computed digest differs from the declared checksum.
    Mismatch { expected: String, actual: String },
}

/// Check the artifact bytes `data` against the checksum `pkg` declares:
/// skipped exactly when the declared checksum is empty, verified exactly when
/// the hex-encoded SHA-256 digest of the bytes equals it, and a mismatch
/// carrying both strings otherwise. Nothing else is ever touched, so a
/// mismatch leaves every filesystem decision to the caller, who must not
/// extract.
pub fn verify_artifact(data: &Vec<u8>, pkg: &PackageInfo) -> (r: VerifyOutcome)
    ensures
        r is SkippedNoChecksum <==> pkg.sha256@.len() == 0,
        r is Verified <==> pkg.sha256@.len() > 0 && pkg.sha256@ == hex_of(sha256_of(data@)),
        r matches VerifyOutcome::Mismatch { expected, actual } ==> expected@ == pkg.sha256@
            && actual@ == hex_of(sha256_of(data@)) && pkg.sha256@ != hex_of(sha256_of(data@)),
{
    if pkg.sha256.as_str().unicode_len() == 0 {
        return VerifyOutcome::SkippedNoChecksum;
    }
    let actual = sha256_hex(data);
    if actual == pkg.sha256 {
        VerifyOutcome::Verified
    } else {
        VerifyOutcome::Mismatch { expected: pkg.sha256.clone(), actual }
    }
}

} // verus!
