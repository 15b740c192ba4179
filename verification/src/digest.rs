//! The cryptographic digest behind block content hashes, and the
//! proof-of-work difficulty predicate on the digest text.

use vstd::prelude::*;
use vstd::string::StrSliceExecFns;

verus! {

/// The hexadecimal SHA-256 digest of a string. The digest is a pure
/// function of the input characters; its value is not stated here.
pub uninterp spec fn sha256_hex_of(s: Seq<char>) -> Seq<char>;

/// A lowercase hexadecimal digit, the alphabet the digest is written in.
pub open spec fn is_hex_digit(c: char) -> bool {
    c == '0' || c == '1' || c == '2' || c == '3' || c == '4' || c == '5' || c == '6' || c == '7'
        || c == '8' || c == '9' || c == 'a' || c == 'b' || c == 'c' || c == 'd' || c == 'e'
        || c == 'f'
}

/// Relies on `crypto_hash::hex_digest` with `crypto_hash::Algorithm::SHA256`:
/// the SHA-256 digest of the UTF-8 bytes of the input, rendered as 64
/// lowercase hexadecimal characters, depending on the input alone.
#[verifier::external_body]
pub(crate) fn sha256_hex(s: &str) -> (r: String)
    ensures
        r@ == sha256_hex_of(s@),
        r@.len() == 64,
        forall|i: int| 0 <= i < r@.len() ==> is_hex_digit(#[trigger] r@[i]),
{
    crypto_hash::hex_digest(crypto_hash::Algorithm::SHA256, s.as_bytes())
}

/// The difficulty predicate: the first `d` characters of the hash text all
/// equal `'0'`.
pub open spec fn spec_meets(s: Seq<char>, d: nat) -> bool {
    d <= s.len() && forall|i: int| 0 <= i < d ==> s[i] == '0'
}

/// Checks the difficulty predicate on a hash string.
pub fn hash_meets(s: &str, d: usize) -> (r: bool)
    ensures
        r == spec_meets(s@, d as nat),
{
    let len = s.unicode_len();
    if d > len {
        return false;
    }
    let mut i: usize = 0;
    while i < d
        invariant
            0 <= i <= d,
            d <= len,
            len == s@.len(),
            forall|k: int| 0 <= k < i ==> s@[k] == '0',
        decreases d - i,
    {
        let c = s.get_char(i);
        if c != '0' {
            return false;
        }
        i = i + 1;
    }
    true
}

} // verus!
