//! Sealing a vault under a passphrase, and opening it again.

use vstd::prelude::*;
use vstd::utf8::{
    decode_utf8, decode_utf8_encode_utf8, encode_utf8, encode_utf8_decode_utf8,
    encode_utf8_valid_utf8, valid_utf8,
};
use crate::codec::{parse_vault, serialize_vault, vault_text};
use crate::envelope::{
    envelope_spelled, envelope_text, lemma_written_is_spelled, parse_envelope, render_envelope,
};
use crate::error::VaultError;
use crate::models::{ExportFile, ExportFileView, Vault, VaultView, VAULT_VERSION};
use crate::primitives::{
    aes256gcm_decrypt, aes256gcm_encrypt, aes256gcm_open, aes256gcm_seal, argon2id, argon2id_hash,
    base64_bytes, base64_decode, base64_encode, base64_text, os_random,
};

verus! {

/// The memory that Argon2id fills, in KiB: 64 MiB.
pub const ARGON2_MEMORY: u32 = 65536;

/// The number of passes of Argon2id.
pub const ARGON2_TIME: u32 = 3;

/// The number of lanes of Argon2id.
pub const ARGON2_PARALLELISM: u32 = 1;

/// The length of the key, in bytes.
pub const KEY_LENGTH: usize = 32;

/// The length of the nonce, in bytes.
pub const NONCE_LENGTH: usize = 12;

/// The length of a fresh salt, and the least length of any salt, in bytes.
pub const SALT_LENGTH: usize = 16;

/// The length of the integrity tag, in bytes.
pub const TAG_LENGTH: usize = 16;

/// The key that a hash gives: its first 32 bytes, if it has that many.
pub open spec fn key_of_hash(hash: Seq<u8>) -> Option<Seq<u8>> {
    if hash.len() >= KEY_LENGTH {
        Some(hash.take(KEY_LENGTH as int))
    } else {
        None
    }
}

/// The key for a passphrase and a salt: the first 32 bytes of the Argon2id
/// hash of the passphrase's UTF-8 bytes, with 64 MiB of memory, 3 passes, one
/// lane and 32 bytes of output. There is none where Argon2id refuses the
/// inputs or gives too short a hash.
pub open spec fn derived_key(password: Seq<char>, salt: Seq<u8>) -> Option<Seq<u8>> {
    match argon2id(
        encode_utf8(password),
        salt,
        ARGON2_MEMORY,
        ARGON2_TIME,
        ARGON2_PARALLELISM,
        KEY_LENGTH as int,
    ) {
        Some(hash) => key_of_hash(hash),
        None => None,
    }
}

/// Takes the key from a hash: its first 32 bytes. A shorter hash is a
/// key-derivation error.
pub fn key_from_hash(hash: &[u8]) -> (r: Result<[u8; 32], VaultError>)
    ensures
        match r {
            Ok(key) => key_of_hash(hash@) == Some(key@),
            Err(e) => e == VaultError::KeyDerivation && key_of_hash(hash@) is None,
        },
{
    if hash.len() < KEY_LENGTH {
        return Err(VaultError::KeyDerivation);
    }
    let mut key = [0u8; 32];
    let mut i: usize = 0;
    while i < KEY_LENGTH
        invariant
            i <= KEY_LENGTH <= hash@.len(),
            forall|k: int| 0 <= k < i ==> key@[k] == hash@[k],
        decreases KEY_LENGTH - i,
    {
        key[i] = hash[i];
        i = i + 1;
    }
    assert(key@ =~= hash@.take(KEY_LENGTH as int));
    Ok(key)
}

/// A passphrase and a salt for which a key is owed: the salt has at least 8
/// bytes, and neither has 2^32 bytes or more.
pub open spec fn key_owed(password: Seq<char>, salt: Seq<u8>) -> bool {
    encode_utf8(password).len() <= 0xffff_ffff && 8 <= salt.len() <= 0xffff_ffff
}

/// Derives the 32-byte key for `password` and `salt` with Argon2id. The same
/// passphrase and salt give the same key, and there is a key wherever one
/// is owed. Failure of the hash, or a hash that is too short, is a
/// key-derivation error.
pub fn derive_key(password: &str, salt: &[u8]) -> (r: Result<[u8; 32], VaultError>)
    ensures
        match r {
            Ok(key) => derived_key(password@, salt@) == Some(key@),
            Err(e) => e == VaultError::KeyDerivation && derived_key(password@, salt@) is None,
        },
        key_owed(password@, salt@) ==> r is Ok,
{
    match argon2id_hash(
        password.as_bytes(),
        salt,
        ARGON2_MEMORY,
        ARGON2_TIME,
        ARGON2_PARALLELISM,
        KEY_LENGTH,
    ) {
        Ok(hash) => key_from_hash(hash.as_slice()),
        Err(_) => Err(VaultError::KeyDerivation),
    }
}

/// The version of the envelope format.
pub const EXPORT_VERSION: u8 = 1;

/// The tag of the envelope format.
pub open spec fn export_format() -> Seq<char> {
    "sshvault-export"@
}

/// A plaintext of this length can be sealed and its ciphertext written in
/// base64: AES-GCM takes at most 2^36 bytes, and the base64 text has to fit
/// the address space.
pub open spec fn sealable(len: nat) -> bool {
    len <= 0x10_0000_0000 && (len + TAG_LENGTH) / 3 < usize::MAX / 4
}

/// A salt of this length can be used for an export: it has at least 16
/// bytes, and its base64 text fits the address space.
pub open spec fn usable_salt(len: nat) -> bool {
    len >= SALT_LENGTH && len / 3 < usize::MAX / 4
}

/// What a result says of a vault, with the vault taken by its view.
pub open spec fn outcome(r: Result<Vault, VaultError>) -> Result<VaultView, VaultError> {
    match r {
        Ok(v) => Ok(v@),
        Err(e) => Err(e),
    }
}

/// The envelope that holds `plaintext`, sealed under `key` and `nonce`.
pub open spec fn envelope_of(
    plaintext: Seq<u8>,
    key: Seq<u8>,
    salt: Seq<u8>,
    nonce: Seq<u8>,
) -> ExportFileView {
    ExportFileView {
        fmt: export_format(),
        v: EXPORT_VERSION,
        salt: base64_text(salt),
        nonce: base64_text(nonce),
        ciphertext: base64_text(aes256gcm_seal(key, nonce, plaintext)),
    }
}

/// The export of the vault `v` under `password` with the given salt and
/// nonce, or the reason why there is none.
pub open spec fn export_text(
    v: VaultView,
    password: Seq<char>,
    salt: Seq<u8>,
    nonce: Seq<u8>,
) -> Result<Seq<char>, VaultError> {
    let plaintext = encode_utf8(vault_text(v));
    if !v.valid() {
        Err(VaultError::Serialization)
    } else if !usable_salt(salt.len()) || nonce.len() != NONCE_LENGTH {
        Err(VaultError::Format)
    } else {
        match derived_key(password, salt) {
            None => Err(VaultError::KeyDerivation),
            Some(key) => if sealable(plaintext.len()) {
                Ok(envelope_text(envelope_of(plaintext, key, salt, nonce)))
            } else {
                Err(VaultError::Serialization)
            },
        }
    }
}

/// The bytes that an envelope of version 1 gives under `password`, or the
/// reason why it gives none. A field that is not base64, a salt of fewer
/// than 16 bytes, a nonce of other than 12 bytes and a ciphertext too short
/// to hold the tag are format errors. A tag that does not verify is an
/// authentication error, whatever the cause.
pub open spec fn opened_version_1(e: ExportFileView, password: Seq<char>) -> Result<
    Seq<u8>,
    VaultError,
> {
    if base64_bytes(e.salt) is None || base64_bytes(e.nonce) is None || base64_bytes(
        e.ciphertext,
    ) is None {
        Err(VaultError::Format)
    } else {
        let salt = base64_bytes(e.salt)->0;
        let nonce = base64_bytes(e.nonce)->0;
        let sealed = base64_bytes(e.ciphertext)->0;
        if salt.len() < SALT_LENGTH || nonce.len() != NONCE_LENGTH || sealed.len() < TAG_LENGTH {
            Err(VaultError::Format)
        } else {
            match derived_key(password, salt) {
                None => Err(VaultError::KeyDerivation),
                Some(key) => match aes256gcm_open(key, nonce, sealed) {
                    None => Err(VaultError::Authentication),
                    Some(plaintext) => Ok(plaintext),
                },
            }
        }
    }
}

/// The bytes that the envelope `e` gives under `password`, or the reason
/// why it gives none. An envelope of another format is unsupported; one of
/// this format is opened as its version says, and a version that is not
/// known is unsupported.
pub open spec fn opened_bytes(e: ExportFileView, password: Seq<char>) -> Result<
    Seq<u8>,
    VaultError,
> {
    if e.fmt != export_format() {
        Err(VaultError::UnsupportedFormat)
    } else if e.v == EXPORT_VERSION {
        opened_version_1(e, password)
    } else {
        Err(VaultError::UnsupportedFormat)
    }
}

/// `bytes` are the UTF-8 text of the valid vault `w`.
pub open spec fn bytes_hold(bytes: Seq<u8>, w: VaultView) -> bool {
    w.valid() && bytes == encode_utf8(vault_text(w))
}

/// `out` is what reading decrypted `bytes` gives: the valid vault whose
/// text they are, or a format error where they are the text of none.
pub open spec fn reads_as(bytes: Seq<u8>, out: Result<VaultView, VaultError>) -> bool {
    &&& forall|w: VaultView| #[trigger] bytes_hold(bytes, w) ==> out == Ok::<VaultView, VaultError>(w)
    &&& out matches Ok(w) ==> bytes_hold(bytes, w)
    &&& out matches Err(x) ==> x == VaultError::Format
}

/// `out` is what importing `text` under `password` gives. A text that
/// spells no envelope is a format error. A text that spells an envelope
/// gives the error with which the envelope fails to open, or else what
/// reading the decrypted bytes gives.
pub open spec fn decodes(
    text: Seq<char>,
    password: Seq<char>,
    out: Result<VaultView, VaultError>,
) -> bool {
    &&& (forall|e: ExportFileView| !#[trigger] envelope_spelled(text, e)) ==> out == Err::<
        VaultView,
        VaultError,
    >(VaultError::Format)
    &&& forall|e: ExportFileView| #[trigger]
        envelope_spelled(text, e) ==> match opened_bytes(e, password) {
            Err(x) => out == Err::<VaultView, VaultError>(x),
            Ok(bytes) => reads_as(bytes, out),
        }
}

/// `text` spells an envelope that opens under `password` to the valid
/// vault `v`.
pub open spec fn opens_to(text: Seq<char>, password: Seq<char>, v: VaultView) -> bool {
    exists|e: ExportFileView| #[trigger]
        envelope_spelled(text, e) && opened_bytes(e, password) == Ok::<Seq<u8>, VaultError>(
            encode_utf8(vault_text(v)),
        ) && v.valid()
}

/// `text` is the written envelope of the vault `v` sealed with `salt` and
/// `nonce`: its three fields are the base64 of the salt, of the nonce and of
/// sealed bytes that are longer than the vault's text by the 16 bytes of the
/// tag.
pub open spec fn holds_sealed(text: Seq<char>, v: VaultView, salt: Seq<u8>, nonce: Seq<u8>) -> bool {
    exists|e: ExportFileView|
        {
            &&& text == #[trigger] envelope_text(e)
            &&& e.fmt == export_format()
            &&& e.v == EXPORT_VERSION
            &&& base64_bytes(e.salt) == Some(salt)
            &&& base64_bytes(e.nonce) == Some(nonce)
            &&& base64_bytes(e.ciphertext) is Some
            &&& base64_bytes(e.ciphertext)->0.len() == encode_utf8(vault_text(v)).len()
                + TAG_LENGTH
        }
}

/// A vault, a passphrase, a salt and a nonce for which an export is owed.
pub open spec fn export_owed(
    v: VaultView,
    password: Seq<char>,
    salt: Seq<u8>,
    nonce: Seq<u8>,
) -> bool {
    &&& v.valid()
    &&& usable_salt(salt.len())
    &&& nonce.len() == NONCE_LENGTH
    &&& key_owed(password, salt)
    &&& sealable(encode_utf8(vault_text(v)).len())
}

/// Round trip: a text that opens to a vault is imported as that vault, and
/// as nothing else.
pub proof fn lemma_round_trip(
    text: Seq<char>,
    password: Seq<char>,
    v: VaultView,
    out: Result<VaultView, VaultError>,
)
    requires
        opens_to(text, password, v),
        decodes(text, password, out),
    ensures
        out == Ok::<VaultView, VaultError>(v),
{
    assert(bytes_hold(encode_utf8(vault_text(v)), v));
}

/// No import gives part of a vault: whatever an import returns is either
/// one of the errors or a valid vault whose export the text is, and a tag
/// that does not verify gives the authentication error and nothing else.
pub proof fn lemma_import_all_or_nothing(
    text: Seq<char>,
    password: Seq<char>,
    e: ExportFileView,
    out: Result<VaultView, VaultError>,
)
    requires
        envelope_spelled(text, e),
        decodes(text, password, out),
    ensures
        out matches Ok(w) ==> opens_to(text, password, w),
        opened_bytes(e, password) == Err::<Seq<u8>, VaultError>(VaultError::Authentication)
            ==> out == Err::<VaultView, VaultError>(VaultError::Authentication),
{
}

/// An import gives a vault only through a tag that verifies: where a text
/// spells the envelope `e` and is imported as the vault `w`, the three
/// fields of `e` are base64, the passphrase and the decoded salt have a
/// key, and under that key and the decoded nonce the decoded ciphertext
/// opens to the text of `w`. Whether a changed field or another passphrase
/// can still open is what AES-GCM and Argon2id decide.
pub proof fn lemma_import_needs_verified_tag(
    text: Seq<char>,
    password: Seq<char>,
    e: ExportFileView,
    w: VaultView,
)
    requires
        envelope_spelled(text, e),
        decodes(text, password, Ok::<VaultView, VaultError>(w)),
    ensures
        base64_bytes(e.salt) is Some,
        base64_bytes(e.nonce) is Some,
        base64_bytes(e.ciphertext) is Some,
        derived_key(password, base64_bytes(e.salt)->0) is Some,
        aes256gcm_open(
            derived_key(password, base64_bytes(e.salt)->0)->0,
            base64_bytes(e.nonce)->0,
            base64_bytes(e.ciphertext)->0,
        ) == Some(encode_utf8(vault_text(w))),
        w.valid(),
{
}

/// Seals the vault under `password` with the given salt and nonce, and
/// writes the envelope down. Salt and nonce must be fresh: a nonce used
/// twice under one key gives the plaintexts away, and nothing here can
/// notice it. [`encrypt_vault`] draws both anew on every call.
///
/// A vault that is not valid, and one too long to seal, is a serialization
/// error; a salt of fewer than 16 bytes and a nonce of other than 12 are
/// format errors. The text returned opens under the same passphrase to the
/// same vault.
pub fn encrypt_vault_with(vault: &Vault, password: &str, salt: &[u8], nonce: &[u8]) -> (r: Result<
    String,
    VaultError,
>)
    ensures
        match r {
            Ok(text) => export_text(vault@, password@, salt@, nonce@) == Ok::<
                Seq<char>,
                VaultError,
            >(text@) && opens_to(text@, password@, vault@) && holds_sealed(
                text@,
                vault@,
                salt@,
                nonce@,
            ),
            Err(e) => export_text(vault@, password@, salt@, nonce@) == Err::<
                Seq<char>,
                VaultError,
            >(e),
        },
        export_owed(vault@, password@, salt@, nonce@) ==> r is Ok,
        r == Err::<String, VaultError>(VaultError::KeyDerivation) ==> !key_owed(password@, salt@),
{
    if vault.version != VAULT_VERSION {
        return Err(VaultError::Serialization);
    }
    if salt.len() < SALT_LENGTH || salt.len() / 3 >= usize::MAX / 4 || nonce.len()
        != NONCE_LENGTH {
        return Err(VaultError::Format);
    }
    let key = match derive_key(password, salt) {
        Ok(key) => key,
        Err(e) => {
            return Err(e);
        },
    };
    let text = serialize_vault(vault);
    let plaintext = text.as_str().as_bytes();
    if plaintext.len() as u64 > 0x10_0000_0000u64 || usize::MAX - plaintext.len() < TAG_LENGTH || (
    plaintext.len() + TAG_LENGTH) / 3 >= usize::MAX / 4 {
        return Err(VaultError::Serialization);
    }
    let sealed = match aes256gcm_encrypt(key.as_slice(), nonce, plaintext) {
        Ok(sealed) => sealed,
        Err(_) => {
            return Err(VaultError::Serialization);
        },
    };
    let envelope = ExportFile {
        fmt: "sshvault-export".to_owned(),
        v: EXPORT_VERSION,
        salt: base64_encode(salt),
        nonce: base64_encode(nonce),
        ciphertext: base64_encode(sealed.as_slice()),
    };
    let out = render_envelope(&envelope);
    proof {
        assert(envelope@ == envelope_of(plaintext@, key@, salt@, nonce@));
        assert(opened_bytes(envelope@, password@) == Ok::<Seq<u8>, VaultError>(plaintext@));
        lemma_written_is_spelled(envelope@);
    }
    Ok(out)
}

/// Exports the vault under `password`: draws a fresh 16-byte salt and a
/// fresh 12-byte nonce from the operating system's random source, and seals
/// the vault with them. The text returned opens under the same passphrase
/// to the same vault.
///
/// A vault that is not valid, and one too long to seal, is a serialization
/// error, and nothing else is. A key-derivation error comes only where
/// Argon2id gives no key for the salt drawn, which takes a passphrase of
/// 2^32 bytes or more. Whether the random source fails is not in this
/// function's hands.
pub fn encrypt_vault(vault: &Vault, password: &str) -> (r: Result<String, VaultError>)
    ensures
        !vault@.valid() ==> r == Err::<String, VaultError>(VaultError::Serialization),
        r == Err::<String, VaultError>(VaultError::Serialization) ==> !vault@.valid() || !sealable(
            encode_utf8(vault_text(vault@)).len(),
        ),
        r == Err::<String, VaultError>(VaultError::KeyDerivation) ==> vault@.valid() && encode_utf8(
            password@,
        ).len() > 0xffff_ffff && exists|salt: Seq<u8>|
            salt.len() == SALT_LENGTH && #[trigger] derived_key(password@, salt) is None,
        match r {
            Ok(text) => opens_to(text@, password@, vault@) && exists|
                salt: Seq<u8>,
                nonce: Seq<u8>,
            |
                salt.len() == SALT_LENGTH && nonce.len() == NONCE_LENGTH && #[trigger] export_text(
                    vault@,
                    password@,
                    salt,
                    nonce,
                ) == Ok::<Seq<char>, VaultError>(text@) && holds_sealed(
                    text@,
                    vault@,
                    salt,
                    nonce,
                ),
            Err(e) => e == VaultError::RandomSource || exists|salt: Seq<u8>, nonce: Seq<u8>|
                salt.len() == SALT_LENGTH && nonce.len() == NONCE_LENGTH && #[trigger] export_text(
                    vault@,
                    password@,
                    salt,
                    nonce,
                ) == Err::<Seq<char>, VaultError>(e),
        },
{
    if vault.version != VAULT_VERSION {
        proof {
            let zeros = Seq::new(SALT_LENGTH as nat, |i: int| 0u8);
            let short = Seq::new(NONCE_LENGTH as nat, |i: int| 0u8);
            assert(export_text(vault@, password@, zeros, short) == Err::<Seq<char>, VaultError>(
                VaultError::Serialization,
            ));
        }
        return Err(VaultError::Serialization);
    }
    let salt = match os_random(SALT_LENGTH) {
        Ok(bytes) => bytes,
        Err(_) => {
            return Err(VaultError::RandomSource);
        },
    };
    let nonce = match os_random(NONCE_LENGTH) {
        Ok(bytes) => bytes,
        Err(_) => {
            return Err(VaultError::RandomSource);
        },
    };
    encrypt_vault_with(vault, password, salt.as_slice(), nonce.as_slice())
}

/// Opens an envelope of version 1.
fn open_version_1(envelope: &ExportFile, password: &str) -> (r: Result<Vec<u8>, VaultError>)
    ensures
        match r {
            Ok(bytes) => opened_version_1(envelope@, password@) == Ok::<Seq<u8>, VaultError>(
                bytes@,
            ),
            Err(e) => opened_version_1(envelope@, password@) == Err::<Seq<u8>, VaultError>(e),
        },
{
    let salt = base64_decode(envelope.salt.as_str());
    let nonce = base64_decode(envelope.nonce.as_str());
    let sealed = base64_decode(envelope.ciphertext.as_str());
    match (salt, nonce, sealed) {
        (Ok(salt), Ok(nonce), Ok(sealed)) => {
            if salt.len() < SALT_LENGTH || nonce.len() != NONCE_LENGTH || sealed.len()
                < TAG_LENGTH {
                return Err(VaultError::Format);
            }
            let key = match derive_key(password, salt.as_slice()) {
                Ok(key) => key,
                Err(e) => {
                    return Err(e);
                },
            };
            match aes256gcm_decrypt(key.as_slice(), nonce.as_slice(), sealed.as_slice()) {
                Ok(plaintext) => Ok(plaintext),
                Err(_) => Err(VaultError::Authentication),
            }
        },
        _ => Err(VaultError::Format),
    }
}

/// Opens an envelope under `password`, and gives the decrypted bytes. The
/// version of the envelope decides how it is opened.
pub fn open_envelope(envelope: &ExportFile, password: &str) -> (r: Result<Vec<u8>, VaultError>)
    ensures
        match r {
            Ok(bytes) => opened_bytes(envelope@, password@) == Ok::<Seq<u8>, VaultError>(bytes@),
            Err(e) => opened_bytes(envelope@, password@) == Err::<Seq<u8>, VaultError>(e),
        },
{
    if envelope.fmt != "sshvault-export".to_owned() {
        return Err(VaultError::UnsupportedFormat);
    }
    match envelope.v {
        1 => open_version_1(envelope, password),
        _ => Err(VaultError::UnsupportedFormat),
    }
}

/// Reads decrypted bytes as a vault: they must be the UTF-8 text of a valid
/// vault.
pub fn read_vault_bytes(bytes: Vec<u8>) -> (r: Result<Vault, VaultError>)
    ensures
        reads_as(bytes@, outcome(r)),
{
    proof {
        assert forall|w: VaultView| #[trigger] bytes_hold(bytes@, w) implies valid_utf8(bytes@)
            && decode_utf8(bytes@) == vault_text(w) by {
            encode_utf8_valid_utf8(vault_text(w));
            encode_utf8_decode_utf8(vault_text(w));
        }
    }
    let text = match String::from_utf8(bytes) {
        Ok(text) => text,
        Err(_) => {
            return Err(VaultError::Format);
        },
    };
    match parse_vault(text.as_str()) {
        Some(v) => {
            if v.version != VAULT_VERSION {
                return Err(VaultError::Format);
            }
            proof {
                decode_utf8_encode_utf8(bytes@);
            }
            Ok(v)
        },
        None => Err(VaultError::Format),
    }
}

/// Imports the vault from the text of an export, under `password`. No part
/// of a vault is returned on any failure.
pub fn decrypt_vault(export_data: &str, password: &str) -> (r: Result<Vault, VaultError>)
    ensures
        decodes(export_data@, password@, outcome(r)),
        forall|w: VaultView| #[trigger]
            opens_to(export_data@, password@, w) ==> outcome(r) == Ok::<VaultView, VaultError>(w),
{
    let envelope = match parse_envelope(export_data) {
        Some(envelope) => envelope,
        None => {
            return Err(VaultError::Format);
        },
    };
    let r = match open_envelope(&envelope, password) {
        Ok(bytes) => read_vault_bytes(bytes),
        Err(e) => Err(e),
    };
    proof {
        assert(decodes(export_data@, password@, outcome(r)));
        assert forall|w: VaultView| #[trigger]
            opens_to(export_data@, password@, w) implies outcome(r) == Ok::<VaultView, VaultError>(
            w,
        ) by {
            lemma_round_trip(export_data@, password@, w, outcome(r));
        }
    }
    r
}

} // verus!
