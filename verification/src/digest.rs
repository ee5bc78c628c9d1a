//! The content-verification capabilities: digest computation, hexadecimal
//! decoding, and decompression of the archived database. The outside calls
//! stand behind trusted wrappers; everything composed from them is verified.

use vstd::prelude::*;
use vstd::string::{StrSliceExecFns, StringSliceAdditionalSpecFns};

verus! {

/// The digest of a byte string. Named only: its value is fixed by the digest
/// algorithm and depends on the input bytes alone.
pub uninterp spec fn sha512_of(data: Seq<u8>) -> Seq<u8>;

/// Relies on sha2::Sha512: the digest is a function of the input bytes alone
/// and is 64 bytes long.
#[verifier::external_body]
fn sha512_digest(data: &[u8]) -> (r: Vec<u8>)
    ensures
        r@ == sha512_of(data@),
        r@.len() == 64,
{
    <sha2::Sha512 as sha2::Digest>::digest(data).to_vec()
}

/// The value of one hexadecimal digit, upper or lower case.
pub open spec fn hex_digit_val(c: char) -> Option<u8> {
    if '0' <= c && c <= '9' {
        Some((c as u8 - '0' as u8) as u8)
    } else if 'a' <= c && c <= 'f' {
        Some((c as u8 - 'a' as u8 + 10) as u8)
    } else if 'A' <= c && c <= 'F' {
        Some((c as u8 - 'A' as u8 + 10) as u8)
    } else {
        None
    }
}

/// What decoding a hexadecimal string yields: one byte for each pair of
/// digits; an odd length or a character that is no hexadecimal digit is
/// refused.
pub open spec fn hex_decoded(s: Seq<char>) -> Option<Seq<u8>>
    decreases s.len(),
{
    if s.len() % 2 != 0 {
        None
    } else if s.len() == 0 {
        Some(Seq::empty())
    } else {
        match (hex_digit_val(s[0]), hex_digit_val(s[1])) {
            (Some(h), Some(l)) => match hex_decoded(s.skip(2)) {
                Some(rest) => Some(seq![(h * 16 + l) as u8] + rest),
                None => None,
            },
            _ => None,
        }
    }
}

/// Relies on hex::decode: an even-length string of hexadecimal digits (either
/// case) decodes pairwise to bytes, and any other string is refused.
#[verifier::external_body]
fn hex_decode(s: &str) -> (r: Option<Vec<u8>>)
    ensures
        r is Some <==> hex_decoded(s@) is Some,
        r matches Some(v) ==> Some(v@) == hex_decoded(s@),
{
    match hex::decode(s) {
        Ok(v) => Some(v),
        Err(_) => None,
    }
}

/// The text a compressed archive decompresses to, or nothing when the bytes
/// are no well-formed archive of text. Named only: the result depends on the
/// compressed bytes alone.
pub uninterp spec fn xz_text_of(data: Seq<u8>) -> Option<Seq<char>>;

/// Relies on xz::read::XzDecoder (with std's read_to_string): decompression
/// is a function of the compressed bytes alone; a malformed stream, or one
/// that does not decompress to text, is refused.
#[verifier::external_body]
pub(crate) fn xz_decompress_text(data: &[u8]) -> (r: Option<String>)
    ensures
        r is Some <==> xz_text_of(data@) is Some,
        r matches Some(t) ==> Some(t@) == xz_text_of(data@),
{
    let mut text = String::new();
    match std::io::Read::read_to_string(&mut xz::read::XzDecoder::new(data), &mut text) {
        Ok(_) => Some(text),
        Err(_) => None,
    }
}

/// Byte-wise equality of two byte strings.
pub fn bytes_eq(a: &Vec<u8>, b: &Vec<u8>) -> (r: bool)
    ensures
        r <==> a@ == b@,
{
    if a.len() != b.len() {
        assert(a@ != b@);
        return false;
    }
    let n = a.len();
    let mut i: usize = 0;
    while i < n
        invariant
            n == a@.len() == b@.len(),
            i <= n,
            forall|k: int| 0 <= k < i ==> a@[k] == b@[k],
        decreases n - i,
    {
        if a[i] != b[i] {
            return false;
        }
        i = i + 1;
    }
    assert(a@ =~= b@);
    true
}

/// The reported checksum (in hexadecimal) names exactly the digest of the
/// text's bytes.
pub open spec fn spec_digest_ok(hash: Seq<char>, text_bytes: Seq<u8>) -> bool {
    hex_decoded(hash) == Some(sha512_of(text_bytes))
}

/// Verifies a document against its reported checksum, byte for byte.
pub fn digest_matches(hash: &str, text: &str) -> (r: bool)
    ensures
        r == spec_digest_ok(hash@, text.spec_bytes()),
{
    let digest = sha512_digest(text.as_bytes());
    match hex_decode(hash) {
        Some(v) => bytes_eq(&v, &digest),
        None => false,
    }
}

/// The digest prefix of a checksum file: its first 128 characters, accepted
/// only when a space follows them (the rest is the file name, which is not
/// consumed).
pub open spec fn spec_extract_checksum(s: Seq<char>) -> Option<Seq<char>> {
    if s.len() > 128 && s[128] == ' ' {
        Some(s.take(128))
    } else {
        None
    }
}

/// Cuts the digest out of a fetched checksum file.
pub fn extract_checksum(s: &str) -> (r: Option<String>)
    ensures
        r is Some <==> spec_extract_checksum(s@) is Some,
        r matches Some(h) ==> Some(h@) == spec_extract_checksum(s@),
{
    let n = s.unicode_len();
    if n > 128 && s.get_char(128) == ' ' {
        let h = s.substring_char(0, 128).to_owned();
        proof {
            assert(h@ =~= s@.take(128));
        }
        Some(h)
    } else {
        None
    }
}

} // verus!
