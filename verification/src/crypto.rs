//! The cryptographic primitives that SRTP and STUN take from other crates.
//!
//! AES in counter mode, HMAC-SHA1, base64 and the random number generator are
//! called here and nowhere else. What they compute is named, not written out
//! again; the few facts stated beside the names are those that the protocols
//! rest on.

use aes::cipher::{KeyIvInit, StreamCipher};
use base64::Engine;
use hmac::Mac;
use vstd::prelude::*;

use crate::bytes;

verus! {

/// Byte `i` of the key stream of AES-128 in counter mode, for a key of 16 bytes
/// and an initial counter block of 16 bytes.
pub uninterp spec fn aes128_ctr_keystream(key: Seq<u8>, iv: Seq<u8>, i: int) -> u8;

/// The HMAC-SHA1 of `message` under `key`.
pub uninterp spec fn hmac_sha1(key: Seq<u8>, message: Seq<u8>) -> Seq<u8>;

/// What decoding `text` as padded standard base64 gives: the bytes, or the
/// description of what is wrong with the text.
pub uninterp spec fn base64_decoded(text: Seq<char>) -> Result<Seq<u8>, Seq<char>>;

/// The padded standard base64 of `data`.
pub uninterp spec fn base64_encoded(data: Seq<u8>) -> Seq<char>;

/// `data` combined with the key stream, byte for byte.
pub open spec fn aes128_ctr(key: Seq<u8>, iv: Seq<u8>, data: Seq<u8>) -> Seq<u8> {
    Seq::new(data.len(), |i: int| data[i] ^ aes128_ctr_keystream(key, iv, i))
}

/// Combining with the same key stream twice gives the data back.
pub proof fn law_aes128_ctr_undoes_itself(key: Seq<u8>, iv: Seq<u8>, data: Seq<u8>)
    ensures
        aes128_ctr(key, iv, aes128_ctr(key, iv, data)) == data,
{
    assert forall|i: int| 0 <= i < data.len() implies aes128_ctr(
        key,
        iv,
        aes128_ctr(key, iv, data),
    )[i] == data[i] by {
        let d = data[i];
        let k = aes128_ctr_keystream(key, iv, i);
        assert(d ^ k ^ k == d) by (bit_vector);
    }
    assert(aes128_ctr(key, iv, aes128_ctr(key, iv, data)) =~= data);
}

/// `StreamCipher::apply_keystream` of `ctr::Ctr128BE<aes::Aes128>`: every byte of
/// the data is combined by exclusive or with the byte of the key stream at its
/// position, and the key stream depends on the key and the initial counter block
/// alone.
#[verifier::external_body]
pub(crate) fn apply_aes128_ctr(key: &[u8; 16], iv: &[u8; 16], data: &[u8]) -> (out: Vec<u8>)
    ensures
        out@.len() == data@.len(),
        forall|i: int|
            0 <= i < data@.len() ==> #[trigger] out@[i] == data@[i] ^ aes128_ctr_keystream(
                key@,
                iv@,
                i,
            ),
{
    let mut out = data.to_vec();
    let mut cipher = ctr::Ctr128BE::<aes::Aes128>::new(key.into(), iv.into());
    cipher.apply_keystream(&mut out);
    out
}

/// `data` combined with the key stream of `key` and `iv`.
pub fn ctr_transform(key: &[u8; 16], iv: &[u8; 16], data: &[u8]) -> (out: Vec<u8>)
    ensures
        out@ == aes128_ctr(key@, iv@, data@),
{
    let out = apply_aes128_ctr(key, iv, data);
    assert(out@ =~= aes128_ctr(key@, iv@, data@));
    out
}

/// `hmac::Hmac<sha1::Sha1>`, fed with `message`: the result depends on the key,
/// which may have any length, and the message alone, and has 20 bytes.
#[verifier::external_body]
pub(crate) fn compute_hmac_sha1(key: &[u8], message: &[u8]) -> (digest: [u8; 20])
    ensures
        digest@ == hmac_sha1(key@, message@),
{
    let mut mac = hmac::Hmac::<sha1::Sha1>::new_from_slice(key).expect("keys of any length");
    mac.update(message);
    mac.finalize().into_bytes().into()
}

/// `Engine::decode` of base64's `STANDARD` engine, with the error by its
/// description: the result depends on the text alone.
#[verifier::external_body]
pub(crate) fn decode_base64(text: &str) -> (data: Result<Vec<u8>, String>)
    ensures
        match (data, base64_decoded(text@)) {
            (Ok(bytes), Ok(decoded)) => bytes@ == decoded,
            (Err(text), Err(description)) => text@ == description,
            _ => false,
        },
{
    base64::engine::general_purpose::STANDARD.decode(text).map_err(|e| e.to_string())
}

/// Whether `c` occurs in padded standard base64.
pub open spec fn base64_char(c: char) -> bool {
    ||| 'A' <= c && c <= 'Z'
    ||| 'a' <= c && c <= 'z'
    ||| '0' <= c && c <= '9'
    ||| c == '+'
    ||| c == '/'
    ||| c == '='
}

/// Whether `text` is base64 of `data`.
pub open spec fn decodes_to(text: Seq<char>, data: Seq<u8>) -> bool {
    base64_decoded(text) matches Ok(decoded) && decoded == data
}

/// `Engine::encode` of base64's `STANDARD` engine: the result depends on the
/// data alone, holds the characters of the standard alphabet and the padding
/// sign only, and decodes to the data again. The encoded length, four thirds of
/// the data's, has to fit in a `usize`.
#[verifier::external_body]
pub(crate) fn encode_base64(data: &[u8]) -> (text: String)
    requires
        data@.len() <= 0x1000_0000,
    ensures
        text@ == base64_encoded(data@),
        decodes_to(text@, data@),
        forall|i: int| 0 <= i < text@.len() ==> base64_char(#[trigger] text@[i]),
{
    base64::engine::general_purpose::STANDARD.encode(data)
}

/// `rand::random` for an array of bytes: any bytes can come.
#[verifier::external_body]
pub(crate) fn random_bytes<const N: usize>() -> (bytes: [u8; N]) {
    rand::random()
}

/// A random number: any can come.
pub(crate) fn random_u32() -> (n: u32) {
    let random = random_bytes::<4>();
    bytes::read_be32(random.as_slice(), 0)
}

/// A random number: any can come.
pub(crate) fn random_u16() -> (n: u16) {
    let random = random_bytes::<2>();
    bytes::read_be16(random.as_slice(), 0)
}

/// Every byte is combined by exclusive or with the byte of the key stream at its place,
/// and nothing is added or left out.
pub proof fn law_aes128_ctr_byte_by_byte(key: Seq<u8>, iv: Seq<u8>, data: Seq<u8>, i: int)
    ensures
        aes128_ctr(key, iv, data).len() == data.len(),
        0 <= i < data.len() ==> aes128_ctr(key, iv, data)[i] == data[i] ^ aes128_ctr_keystream(
            key,
            iv,
            i,
        ),
{
}

} // verus!
