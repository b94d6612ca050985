//! Content fingerprints: the key by which a saved URL is recognised again.

use sha2::Digest;
use sha2::Sha256;
use vstd::prelude::*;
use vstd::string::*;
use vstd::utf8::encode_utf8;

verus! {

/// The SHA-256 digest of a message, as the `sha2` crate computes it.
pub uninterp spec fn sha256(message: Seq<u8>) -> Seq<u8>;

/// Calls `sha2::Sha256::digest`. Trusted: the 32 bytes that come back are the
/// SHA-256 digest of `message`, a function of the message alone.
#[verifier::external_body]
fn sha256_digest(message: &[u8]) -> (digest: Vec<u8>)
    ensures
        digest@ == sha256(message@),
        digest@.len() == 32,
{
    Sha256::digest(message).to_vec()
}

/// The sixteen lower-case hexadecimal digits, in order of value.
pub open spec fn hex_digits() -> Seq<char> {
    "0123456789abcdef"@
}

/// The digit at position `i` of the lower-case hexadecimal rendering of
/// `bytes`: the high half of a byte comes before its low half.
pub open spec fn lower_hex_at(bytes: Seq<u8>, i: int) -> char {
    if i % 2 == 0 {
        hex_digits()[bytes[i / 2] as int / 16]
    } else {
        hex_digits()[bytes[i / 2] as int % 16]
    }
}

/// Lower-case hexadecimal rendering of `bytes`, two digits per byte.
pub open spec fn lower_hex(bytes: Seq<u8>) -> Seq<char> {
    Seq::new(2 * bytes.len(), |i: int| lower_hex_at(bytes, i))
}

/// The fingerprint of a URL: the SHA-256 digest of its UTF-8 bytes in
/// lower-case hexadecimal.
pub open spec fn url_fingerprint(url: Seq<char>) -> Seq<char> {
    lower_hex(sha256(encode_utf8(url)))
}

/// Renders `bytes` in lower-case hexadecimal.
pub fn to_lower_hex(bytes: &Vec<u8>) -> (text: String)
    ensures
        text@ == lower_hex(bytes@),
{
    let digits: &str = "0123456789abcdef";
    proof {
        reveal_strlit("0123456789abcdef");
    }
    let mut text = String::new();
    let mut i: usize = 0;
    while i < bytes.len()
        invariant
            i <= bytes.len(),
            digits@ == hex_digits(),
            digits@.len() == 16,
            text@.len() == 2 * i,
            forall|k: int| 0 <= k < 2 * i ==> text@[k] == lower_hex_at(bytes@, k),
        decreases bytes.len() - i,
    {
        let byte: u8 = bytes[i];
        let high: usize = (byte / 16) as usize;
        let low: usize = (byte % 16) as usize;
        let ghost before = text@;
        text.append(digits.substring_char(high, high + 1));
        text.append(digits.substring_char(low, low + 1));
        assert(text@ =~= before.push(digits@[high as int]).push(digits@[low as int]));
        i = i + 1;
    }
    assert(text@ =~= lower_hex(bytes@));
    text
}

/// Computes the fingerprint under which a URL is stored: 64 hexadecimal
/// digits that depend on the text of the URL and on nothing else.
pub fn calculate_url_hash(url: &str) -> (hash: String)
    ensures
        hash@ == url_fingerprint(url@),
        hash@.len() == 64,
{
    let digest = sha256_digest(url.as_bytes());
    to_lower_hex(&digest)
}

} // verus!
