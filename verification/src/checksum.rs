//! Digest computation and comparison for completed downloads.
//!
//! The digests themselves come from outside crates and are only named
//! here; the hex rendering and the case-insensitive comparison against
//! the expected value are specified exactly and verified.

use vstd::prelude::*;

use crate::error::DownloadError;
use sha2::Digest;

verus! {

/// The SHA-256 digest of a byte sequence; a function of the bytes alone.
pub uninterp spec fn sha256_of(data: Seq<u8>) -> Seq<u8>;

/// The MD5 digest of a byte sequence; a function of the bytes alone.
pub uninterp spec fn md5_of(data: Seq<u8>) -> Seq<u8>;

/// The lowercase hex digit for a value in `0..=15`.
pub open spec fn hex_digit(d: int) -> char {
    if d < 10 {
        crate::text::dec_digit(d)
    } else if d == 10 {
        'a'
    } else if d == 11 {
        'b'
    } else if d == 12 {
        'c'
    } else if d == 13 {
        'd'
    } else if d == 14 {
        'e'
    } else {
        'f'
    }
}

/// Lowercase hex rendering of bytes, high nibble first.
pub open spec fn hex_of(bytes: Seq<u8>) -> Seq<char>
    decreases bytes.len(),
{
    if bytes.len() == 0 {
        Seq::empty()
    } else {
        seq![
            hex_digit(bytes.first() as int / 16),
            hex_digit(bytes.first() as int % 16),
        ] + hex_of(bytes.drop_first())
    }
}

/// Relies on sha2::Sha256 (via the Digest trait): the 32-byte SHA-256
/// digest of the input, a function of the bytes alone.
#[verifier::external_body]
fn sha256_digest(data: &[u8]) -> (r: Vec<u8>)
    ensures
        r@ == sha256_of(data@),
        r@.len() == 32,
{
    sha2::Sha256::digest(data).to_vec()
}

/// Relies on md5::compute: the 16-byte MD5 digest of the input, a
/// function of the bytes alone.
#[verifier::external_body]
fn md5_digest(data: &[u8]) -> (r: Vec<u8>)
    ensures
        r@ == md5_of(data@),
        r@.len() == 16,
{
    md5::compute(data).0.to_vec()
}

/// Relies on hex::encode: two lowercase hex digits per byte, high nibble
/// first.
#[verifier::external_body]
fn hex_encode(data: &[u8]) -> (r: String)
    ensures
        r@ == hex_of(data@),
{
    hex::encode(data)
}

/// ASCII case folding of one character: `A`..`Z` map to their lowercase
/// code points, everything else is unchanged.
pub open spec fn fold_ascii(c: char) -> int {
    if 65 <= c as int <= 90 {
        c as int + 32
    } else {
        c as int
    }
}

/// Equality up to ASCII case.
pub open spec fn eq_ignore_case(a: Seq<char>, b: Seq<char>) -> bool {
    a.len() == b.len() && forall|i: int| 0 <= i < a.len() ==> fold_ascii(a[i]) == fold_ascii(b[i])
}

/// Compare two strings ignoring ASCII case.
pub fn ascii_eq_ignore_case(a: &str, b: &str) -> (r: bool)
    ensures
        r == eq_ignore_case(a@, b@),
{
    let an = a.unicode_len();
    let bn = b.unicode_len();
    if an != bn {
        return false;
    }
    let mut i: usize = 0;
    while i < an
        invariant
            an == a@.len(),
            bn == b@.len(),
            an == bn,
            i <= an,
            forall|j: int| 0 <= j < i ==> fold_ascii(a@[j]) == fold_ascii(b@[j]),
        decreases an - i,
    {
        let ca = a.get_char(i) as u32;
        let cb = b.get_char(i) as u32;
        let fa = if 65 <= ca && ca <= 90 {
            ca + 32
        } else {
            ca
        };
        let fb = if 65 <= cb && cb <= 90 {
            cb + 32
        } else {
            cb
        };
        if fa != fb {
            return false;
        }
        i = i + 1;
    }
    true
}

/// Check a file's contents against an expected SHA-256 digest, compared
/// case-insensitively against its lowercase hex rendering.  A mismatch
/// reports both the expected and the actual digest.
pub fn verify_sha256(data: &[u8], expected: &str) -> (r: Result<(), DownloadError>)
    ensures
        r is Ok <==> eq_ignore_case(hex_of(sha256_of(data@)), expected@),
        r matches Result::Err(e) ==> e matches DownloadError::ChecksumMismatch {
            algorithm,
            expected: exp,
            actual,
        } && algorithm@ == "SHA256"@ && exp@ == expected@ && actual@ == hex_of(sha256_of(data@)),
{
    let digest = sha256_digest(data);
    let actual = hex_encode(digest.as_slice());
    if ascii_eq_ignore_case(actual.as_str(), expected) {
        Result::Ok(())
    } else {
        let mut algorithm = String::new();
        algorithm.append("SHA256");
        Result::Err(
            DownloadError::ChecksumMismatch {
                algorithm,
                expected: expected.to_owned(),
                actual,
            },
        )
    }
}

/// Check a file's contents against an expected MD5 digest, compared
/// case-insensitively against its lowercase hex rendering.  A mismatch
/// reports both the expected and the actual digest.
pub fn verify_md5(data: &[u8], expected: &str) -> (r: Result<(), DownloadError>)
    ensures
        r is Ok <==> eq_ignore_case(hex_of(md5_of(data@)), expected@),
        r matches Result::Err(e) ==> e matches DownloadError::ChecksumMismatch {
            algorithm,
            expected: exp,
            actual,
        } && algorithm@ == "MD5"@ && exp@ == expected@ && actual@ == hex_of(md5_of(data@)),
{
    let digest = md5_digest(data);
    let actual = hex_encode(digest.as_slice());
    if ascii_eq_ignore_case(actual.as_str(), expected) {
        Result::Ok(())
    } else {
        let mut algorithm = String::new();
        algorithm.append("MD5");
        Result::Err(
            DownloadError::ChecksumMismatch {
                algorithm,
                expected: expected.to_owned(),
                actual,
            },
        )
    }
}

/// Run the digest check a finished task asks for: SHA-256 when an
/// expected strong digest is present (preferred), MD5 when only the
/// legacy one is, nothing otherwise.
pub fn verify_task_data(data: &[u8], sha256: &Option<String>, md5: &Option<String>) -> (r: Result<
    (),
    DownloadError,
>)
    ensures
        match sha256 {
            Option::Some(exp) => r is Ok <==> eq_ignore_case(hex_of(sha256_of(data@)), exp@),
            Option::None => match md5 {
                Option::Some(exp) => r is Ok <==> eq_ignore_case(hex_of(md5_of(data@)), exp@),
                Option::None => r is Ok,
            },
        },
        r matches Result::Err(e) ==> e is ChecksumMismatch,
{
    match sha256 {
        Option::Some(exp) => verify_sha256(data, exp.as_str()),
        Option::None => match md5 {
            Option::Some(exp) => verify_md5(data, exp.as_str()),
            Option::None => Result::Ok(()),
        },
    }
}

} // verus!
