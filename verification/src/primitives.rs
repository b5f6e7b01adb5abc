//! The outside primitives that the vault rests on: Argon2id, AES-256-GCM,
//! base64, the operating system's random source and UUIDs, and two
//! functions of `String`.
//!
//! Nothing in this file is proved. Each function below calls one outside
//! function, and its contract is what the rest of the crate believes of
//! that function.

use vstd::prelude::*;
use vstd::utf8::{decode_utf8, valid_utf8};
use aes_gcm::aead::{Aead, KeyInit};
use rand::RngCore;

verus! {

#[verifier::external_type_specification]
#[verifier::external_body]
pub struct ExArgon2Error(argon2::Error);

#[verifier::external_type_specification]
#[verifier::external_body]
pub struct ExAeadError(aes_gcm::Error);

#[verifier::external_type_specification]
#[verifier::external_body]
pub struct ExBase64DecodeError(base64::DecodeError);

#[verifier::external_type_specification]
#[verifier::external_body]
pub struct ExRandError(rand::Error);

#[verifier::external_type_specification]
#[verifier::external_body]
pub struct ExFromUtf8Error(std::string::FromUtf8Error);

/// The Argon2id hash (version 0x13, no secret, no associated data) of
/// `password` and `salt` at the given memory cost in KiB, number of passes,
/// number of lanes and output length; `None` where Argon2 refuses the
/// inputs.
pub uninterp spec fn argon2id(
    password: Seq<u8>,
    salt: Seq<u8>,
    m_cost: u32,
    t_cost: u32,
    lanes: u32,
    out_len: int,
) -> Option<Seq<u8>>;

/// The AES-256-GCM ciphertext of `plaintext` under `key` and `nonce`, with
/// no associated data, followed by its 16-byte tag.
pub uninterp spec fn aes256gcm_seal(key: Seq<u8>, nonce: Seq<u8>, plaintext: Seq<u8>) -> Seq<u8>;

/// The plaintext that AES-256-GCM recovers from `sealed` under `key` and
/// `nonce`; `None` where the tag does not verify.
pub uninterp spec fn aes256gcm_open(key: Seq<u8>, nonce: Seq<u8>, sealed: Seq<u8>) -> Option<
    Seq<u8>,
>;

/// `bytes` in standard base64 with padding.
pub uninterp spec fn base64_text(bytes: Seq<u8>) -> Seq<char>;

/// The bytes that `text` stands for in standard base64 with canonical
/// padding; `None` where `text` is no such encoding.
pub uninterp spec fn base64_bytes(text: Seq<char>) -> Option<Seq<u8>>;

/// Inputs that Argon2 takes: at least one pass and one lane, at least 8 KiB
/// of memory for each lane, an output of 4 to 64 bytes, a salt of at least 8
/// bytes, and no input of 2^32 bytes or more.
pub open spec fn argon2_accepts(
    password_len: nat,
    salt_len: nat,
    m_cost: u32,
    t_cost: u32,
    lanes: u32,
    out_len: int,
) -> bool {
    &&& 1 <= lanes <= 0xff_ffff
    &&& m_cost >= 8 * lanes
    &&& t_cost >= 1
    &&& 4 <= out_len <= 64
    &&& password_len <= 0xffff_ffff
    &&& 8 <= salt_len <= 0xffff_ffff
}

/// `argon2::Argon2::hash_password_into`, on a context made by
/// `argon2::Argon2::new` for Argon2id, version 0x13, with
/// `argon2::Params::new(m_cost, t_cost, lanes, Some(out_len))`.
///
/// Believed: the outcome is a function of the arguments; a hash that comes
/// back has the length asked for; and the call succeeds on the inputs of
/// [`argon2_accepts`], which are those that pass the checks of
/// `Params::new` and of the hash function, with the output held to the 64
/// bytes that one BLAKE2b call gives. More than 0xff_ffff lanes are kept out
/// because the parameter check multiplies the lanes by eight.
#[verifier::external_body]
pub(crate) fn argon2id_hash(
    password: &[u8],
    salt: &[u8],
    m_cost: u32,
    t_cost: u32,
    lanes: u32,
    out_len: usize,
) -> (r: Result<Vec<u8>, argon2::Error>)
    requires
        lanes <= 0xff_ffff,
    ensures
        match r {
            Ok(hash) => argon2id(password@, salt@, m_cost, t_cost, lanes, out_len as int) == Some(
                hash@,
            ) && hash@.len() == out_len,
            Err(_) => argon2id(password@, salt@, m_cost, t_cost, lanes, out_len as int) is None,
        },
        argon2_accepts(password@.len(), salt@.len(), m_cost, t_cost, lanes, out_len as int)
            ==> r is Ok,
{
    let params = argon2::Params::new(m_cost, t_cost, lanes, Some(out_len))?;
    let hasher = argon2::Argon2::new(argon2::Algorithm::Argon2id, argon2::Version::V0x13, params);
    let mut hash = vec![0u8; out_len];
    hasher.hash_password_into(password, salt, &mut hash)?;
    Ok(hash)
}

/// `aes_gcm::aead::Aead::encrypt` of `aes_gcm::Aes256Gcm`.
///
/// Believed: the result is a function of key, nonce and plaintext; it is 16
/// bytes longer than the plaintext; decrypting it under the same key and
/// nonce gives the plaintext back; and the call fails only on a plaintext of
/// more than 2^36 bytes. Key and nonce must have their exact lengths: the
/// conversion from a slice panics otherwise.
#[verifier::external_body]
pub(crate) fn aes256gcm_encrypt(key: &[u8], nonce: &[u8], plaintext: &[u8]) -> (r: Result<
    Vec<u8>,
    aes_gcm::Error,
>)
    requires
        key@.len() == 32,
        nonce@.len() == 12,
    ensures
        match r {
            Ok(sealed) => sealed@ == aes256gcm_seal(key@, nonce@, plaintext@) && sealed@.len()
                == plaintext@.len() + 16 && aes256gcm_open(key@, nonce@, sealed@) == Some(
                plaintext@,
            ),
            Err(_) => plaintext@.len() > 0x10_0000_0000,
        },
{
    let cipher = aes_gcm::Aes256Gcm::new(aes_gcm::Key::<aes_gcm::Aes256Gcm>::from_slice(key));
    cipher.encrypt(aes_gcm::Nonce::from_slice(nonce), plaintext)
}

/// `aes_gcm::aead::Aead::decrypt` of `aes_gcm::Aes256Gcm`.
///
/// Believed: the outcome is a function of key, nonce and sealed bytes. Key
/// and nonce must have their exact lengths: the conversion from a slice
/// panics otherwise.
#[verifier::external_body]
pub(crate) fn aes256gcm_decrypt(key: &[u8], nonce: &[u8], sealed: &[u8]) -> (r: Result<
    Vec<u8>,
    aes_gcm::Error,
>)
    requires
        key@.len() == 32,
        nonce@.len() == 12,
    ensures
        match r {
            Ok(plaintext) => aes256gcm_open(key@, nonce@, sealed@) == Some(plaintext@),
            Err(_) => aes256gcm_open(key@, nonce@, sealed@) is None,
        },
{
    let cipher = aes_gcm::Aes256Gcm::new(aes_gcm::Key::<aes_gcm::Aes256Gcm>::from_slice(key));
    cipher.decrypt(aes_gcm::Nonce::from_slice(nonce), sealed)
}

/// `base64::Engine::encode` of `base64::engine::general_purpose::STANDARD`.
///
/// Believed: the text is a function of the bytes, and decoding it gives the
/// bytes back. Inputs whose encoded length would not fit a `usize` are kept
/// out: the call panics on them.
#[verifier::external_body]
pub(crate) fn base64_encode(bytes: &[u8]) -> (r: String)
    requires
        bytes@.len() / 3 < usize::MAX / 4,
    ensures
        r@ == base64_text(bytes@),
        base64_bytes(r@) == Some(bytes@),
{
    base64::Engine::encode(&base64::engine::general_purpose::STANDARD, bytes)
}

/// `base64::Engine::decode` of `base64::engine::general_purpose::STANDARD`.
///
/// Believed: the outcome is a function of the text.
#[verifier::external_body]
pub(crate) fn base64_decode(text: &str) -> (r: Result<Vec<u8>, base64::DecodeError>)
    ensures
        match r {
            Ok(bytes) => base64_bytes(text@) == Some(bytes@),
            Err(_) => base64_bytes(text@) is None,
        },
{
    base64::Engine::decode(&base64::engine::general_purpose::STANDARD, text)
}

/// `rand::RngCore::try_fill_bytes` of `rand::rngs::OsRng`, on a fresh buffer
/// of `len` bytes.
///
/// Believed: bytes that come back are `len` in number. Nothing is claimed
/// about their values.
#[verifier::external_body]
pub(crate) fn os_random(len: usize) -> (r: Result<Vec<u8>, rand::Error>)
    ensures
        r matches Ok(bytes) ==> bytes@.len() == len,
{
    let mut bytes = vec![0u8; len];
    rand::rngs::OsRng.try_fill_bytes(&mut bytes)?;
    Ok(bytes)
}

/// The version-4 UUID made of 16 random bytes, in its hyphenated form.
pub uninterp spec fn uuid_v4_text(bytes: Seq<u8>) -> Seq<char>;

/// `uuid::Builder::from_random_bytes`, then `into_uuid`, written out by the
/// `Display` of `uuid::Uuid`.
///
/// Believed: the text is a function of the bytes, and has the 36 characters
/// of the hyphenated form.
#[verifier::external_body]
pub(crate) fn uuid_from_random(bytes: &[u8; 16]) -> (r: String)
    ensures
        r@ == uuid_v4_text(bytes@),
        r@.len() == 36,
{
    uuid::Builder::from_random_bytes(*bytes).into_uuid().to_string()
}

/// `String::push` appends one character.
pub assume_specification[ String::push ](s: &mut String, ch: char)
    ensures
        final(s)@ == old(s)@.push(ch),
;

/// `String::from_utf8` succeeds exactly on valid UTF-8, and then gives the
/// string that the bytes encode.
pub assume_specification[ String::from_utf8 ](bytes: Vec<u8>) -> (r: Result<
    String,
    std::string::FromUtf8Error,
>)
    ensures
        match r {
            Ok(s) => valid_utf8(bytes@) && s@ == decode_utf8(bytes@),
            Err(_) => !valid_utf8(bytes@),
        },
;

} // verus!
