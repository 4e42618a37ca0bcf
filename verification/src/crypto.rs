//! The encodings and digests the library uses: base64, SHA-1 and
//! HMAC-SHA256. They come from the base64, sha1, sha2 and hmac crates.
use hmac::Mac;
use sha1::Digest;
use vstd::prelude::*;
use vstd::string::StringSliceAdditionalSpecFns;

verus! {

/// The character of a six-bit value in the standard base64 alphabet.
pub open spec fn base64_char(v: int) -> char {
    if v < 26 {
        (65 + v) as char
    } else if v < 52 {
        (97 + v - 26) as char
    } else if v < 62 {
        (48 + v - 52) as char
    } else if v == 62 {
        '+'
    } else {
        '/'
    }
}

/// The standard (padded) base64 encoding of some bytes: each group of three
/// bytes gives four characters of six bits each; a last group of one or two
/// bytes is padded with `=` to four characters.
pub open spec fn base64_encoding(data: Seq<u8>) -> Seq<char>
    decreases data.len(),
{
    if data.len() == 0 {
        Seq::empty()
    } else if data.len() == 1 {
        let a = data[0] as int;
        seq![base64_char(a / 4), base64_char((a % 4) * 16), '=', '=']
    } else if data.len() == 2 {
        let a = data[0] as int;
        let b = data[1] as int;
        seq![base64_char(a / 4), base64_char((a % 4) * 16 + b / 16), base64_char((b % 16) * 4), '=']
    } else {
        let a = data[0] as int;
        let b = data[1] as int;
        let c = data[2] as int;
        seq![base64_char(a / 4), base64_char((a % 4) * 16 + b / 16), base64_char((b % 16) * 4 + c / 64), base64_char(c % 64)]
            + base64_encoding(data.skip(3))
    }
}

/// The bytes that a text decodes to under standard base64, or `None` where
/// the text is no valid standard base64.
pub uninterp spec fn base64_decoding(text: Seq<u8>) -> Option<Seq<u8>>;

/// The SHA-1 digest of some bytes.
pub uninterp spec fn sha1_digest_of(data: Seq<u8>) -> Seq<u8>;

/// The HMAC-SHA256 tag of a message under a key.
pub uninterp spec fn hmac_sha256_of(key: Seq<u8>, message: Seq<u8>) -> Seq<u8>;

/// base64's `encode`: the standard, padded base64 text of `data`, as
/// `base64_encoding` states it.
#[verifier::external_body]
pub(crate) fn base64_encode(data: &[u8]) -> (res: String)
    ensures
        res@ == base64_encoding(data@),
{
    base64::encode(data)
}

/// base64's `decode`: the bytes that `text` encodes under standard base64,
/// `None` where base64 reports an error. The contract names the result.
#[verifier::external_body]
pub(crate) fn base64_decode(text: &str) -> (res: Option<Vec<u8>>)
    ensures
        match res {
            Some(v) => base64_decoding(text.spec_bytes()) == Some(v@),
            None => base64_decoding(text.spec_bytes()) is None,
        },
{
    match base64::decode(text) {
        Ok(v) => Some(v),
        Err(_) => None,
    }
}

/// sha1's `Sha1` digest of `data`: `new`, `update`, `finalize`. The contract
/// names the result and states its documented size of 20 bytes.
#[verifier::external_body]
pub(crate) fn sha1_digest(data: &[u8]) -> (res: Vec<u8>)
    ensures
        res@ == sha1_digest_of(data@),
        res@.len() == 20,
{
    let mut hasher = sha1::Sha1::new();
    hasher.update(data);
    hasher.finalize().to_vec()
}

/// hmac's `Hmac<Sha256>`: `new_from_slice`, `update`, `finalize`. The
/// contract names the tag. `new_from_slice` of `Hmac` takes keys of every
/// length (it hashes long keys), so the result is never `None`.
#[verifier::external_body]
pub(crate) fn hmac_sha256(key: &[u8], message: &[u8]) -> (res: Option<Vec<u8>>)
    ensures
        match res {
            Some(tag) => tag@ == hmac_sha256_of(key@, message@),
            None => false,
        },
{
    match hmac::Hmac::<sha2::Sha256>::new_from_slice(key) {
        Ok(mut mac) => {
            mac.update(message);
            Some(mac.finalize().into_bytes().to_vec())
        },
        Err(_) => None,
    }
}

} // verus!
