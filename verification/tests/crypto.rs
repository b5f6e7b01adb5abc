use aes_gcm::aead::{Aead, KeyInit};
use base64::Engine;
use sshvault::codec::serialize_vault;
use sshvault::crypto::{
    decrypt_vault, derive_key, encrypt_vault, encrypt_vault_with, key_from_hash, open_envelope,
    read_vault_bytes,
};
use sshvault::envelope::{parse_envelope, render_envelope};
use sshvault::error::VaultError;
use sshvault::models::{ExportFile, Group, Host, IdKind, Vault};

const SALT: [u8; 16] = [0, 1, 2, 3, 4, 5, 6, 7, 8, 9, 10, 11, 12, 13, 14, 15];
const NONCE: [u8; 12] = [0, 1, 2, 3, 4, 5, 6, 7, 8, 9, 10, 11];

fn b64(bytes: &[u8]) -> String {
    base64::engine::general_purpose::STANDARD.encode(bytes)
}

fn unb64(text: &str) -> Vec<u8> {
    base64::engine::general_purpose::STANDARD.decode(text).unwrap()
}

fn sample_vault() -> Vault {
    Vault {
        version: 1,
        groups: vec![Group { name: "prod".to_string(), created_at: 1700000000 }],
        hosts: vec![Host {
            id: "7f6c1e1e-0000-4000-8000-000000000001".to_string(),
            name: "db1".to_string(),
            hostname: "example.com".to_string(),
            port: 22,
            username: Some("alice".to_string()),
            auth: IdKind::Agent,
            group: Some("prod".to_string()),
            tags: vec![],
            notes: None,
            created_at: 1700000000,
            updated_at: 1700000001,
        }],
    }
}

/// An envelope that holds `plaintext` sealed under `password`, made with the
/// outside crates alone.
fn seal_by_hand(plaintext: &[u8], password: &str) -> ExportFile {
    let params = argon2::Params::new(65536, 3, 1, Some(32)).unwrap();
    let hasher = argon2::Argon2::new(argon2::Algorithm::Argon2id, argon2::Version::V0x13, params);
    let mut key = [0u8; 32];
    hasher.hash_password_into(password.as_bytes(), &SALT, &mut key).unwrap();
    let cipher = aes_gcm::Aes256Gcm::new(aes_gcm::Key::<aes_gcm::Aes256Gcm>::from_slice(&key));
    let sealed = cipher.encrypt(aes_gcm::Nonce::from_slice(&NONCE), plaintext).unwrap();
    ExportFile {
        fmt: "sshvault-export".to_string(),
        v: 1,
        salt: b64(&SALT),
        nonce: b64(&NONCE),
        ciphertext: b64(&sealed),
    }
}

/// `text` with the lowest bit of its byte at `index` flipped.
fn flip(text: &str, index: usize) -> String {
    let mut bytes = text.as_bytes().to_vec();
    bytes[index] ^= 1;
    String::from_utf8(bytes).unwrap()
}

#[test]
fn test_encrypt_decrypt_roundtrip() {
    let vault = Vault {
        version: 1,
        groups: vec![Group { name: "test-group".to_string(), created_at: 1234567890 }],
        hosts: vec![Host {
            id: "test-id".to_string(),
            name: "test-host".to_string(),
            hostname: "example.com".to_string(),
            port: 22,
            username: Some("user".to_string()),
            auth: IdKind::Agent,
            group: Some("test-group".to_string()),
            tags: vec!["prod".to_string()],
            notes: Some("Test host".to_string()),
            created_at: 1234567890,
            updated_at: 1234567890,
        }],
    };

    let password = "test-password-123";
    let encrypted = encrypt_vault(&vault, password).unwrap();
    let decrypted = decrypt_vault(&encrypted, password).unwrap();

    assert_eq!(vault.version, decrypted.version);
    assert_eq!(vault.groups.len(), decrypted.groups.len());
    assert_eq!(vault.hosts.len(), decrypted.hosts.len());
    assert_eq!(vault.hosts[0].name, decrypted.hosts[0].name);
    assert_eq!(vault, decrypted);
}

#[test]
fn test_wrong_password_fails() {
    let vault = Vault::default();
    let password = "correct-password";
    let wrong_password = "wrong-password";

    let encrypted = encrypt_vault(&vault, password).unwrap();
    let result = decrypt_vault(&encrypted, wrong_password);

    assert!(result.is_err());
    assert_eq!(result, Err(VaultError::Authentication));
}

#[test]
fn export_of_prod_db1_reopens_and_refuses_wrong_password() {
    let vault = sample_vault();
    let text = encrypt_vault(&vault, "correct-password").unwrap();
    let back = decrypt_vault(&text, "correct-password").unwrap();
    assert_eq!(back.groups, vault.groups);
    assert_eq!(back.hosts, vault.hosts);
    assert_eq!(back.hosts[0].username, Some("alice".to_string()));
    assert_eq!(back.hosts[0].auth, IdKind::Agent);
    assert_eq!(decrypt_vault(&text, "wrong-password"), Err(VaultError::Authentication));
}

#[test]
fn export_with_key_path_tags_and_notes_reopens() {
    let mut vault = sample_vault();
    vault.hosts[0].auth = IdKind::KeyPath("/home/alice/.ssh/id \"ed\"\\25519".to_string());
    vault.hosts[0].tags = vec!["a".to_string(), "b\nc".to_string()];
    vault.hosts[0].notes = Some("caf\u{e9} \u{1F510} \u{1}".to_string());
    vault.hosts[0].created_at = i64::MIN;
    vault.hosts[0].updated_at = i64::MAX;
    let text = encrypt_vault_with(&vault, "p", &SALT, &NONCE).unwrap();
    assert_eq!(decrypt_vault(&text, "p"), Ok(vault));
}

#[test]
fn export_has_the_documented_envelope() {
    let vault = sample_vault();
    let text = encrypt_vault_with(&vault, "pw", &SALT, &NONCE).unwrap();
    let head = "{\"fmt\":\"sshvault-export\",\"v\":1,\"salt\":\"AAECAwQFBgcICQoLDA0ODw==\",\"nonce\":\"AAECAwQFBgcICQoL\",\"ciphertext\":\"";
    assert!(text.starts_with(head));
    assert!(text.ends_with("\"}"));
    let envelope = parse_envelope(&text).unwrap();
    assert_eq!(envelope.fmt, "sshvault-export");
    assert_eq!(envelope.v, 1);
    assert_eq!(envelope.salt, "AAECAwQFBgcICQoLDA0ODw==");
    assert_eq!(envelope.nonce, "AAECAwQFBgcICQoL");
    let plain = serialize_vault(&vault);
    let sealed = unb64(&envelope.ciphertext);
    assert_eq!(sealed.len(), plain.len() + 16);
    assert_ne!(&sealed[..plain.len()], plain.as_bytes());
}

#[test]
fn export_agrees_with_the_outside_crates_used_by_hand() {
    let vault = sample_vault();
    let text = encrypt_vault_with(&vault, "pw", &SALT, &NONCE).unwrap();
    let by_hand = seal_by_hand(serialize_vault(&vault).as_bytes(), "pw");
    assert_eq!(text, render_envelope(&by_hand));
}

#[test]
fn export_made_by_hand_is_imported() {
    let vault = sample_vault();
    let by_hand = seal_by_hand(serialize_vault(&vault).as_bytes(), "pw");
    assert_eq!(decrypt_vault(&render_envelope(&by_hand), "pw"), Ok(vault));
}

#[test]
fn export_with_fresh_salt_has_sixteen_bytes_of_salt_and_twelve_of_nonce() {
    let text = encrypt_vault(&Vault::default(), "pw").unwrap();
    let envelope = parse_envelope(&text).unwrap();
    assert_eq!(unb64(&envelope.salt).len(), 16);
    assert_eq!(unb64(&envelope.nonce).len(), 12);
    assert_eq!(unb64(&envelope.ciphertext).len(), serialize_vault(&Vault::default()).len() + 16);
}

#[test]
fn two_exports_of_one_vault_differ() {
    let vault = sample_vault();
    let a = parse_envelope(&encrypt_vault(&vault, "pw").unwrap()).unwrap();
    let b = parse_envelope(&encrypt_vault(&vault, "pw").unwrap()).unwrap();
    assert_ne!(a.salt, b.salt);
    assert_ne!(a.nonce, b.nonce);
    assert_ne!(a.ciphertext, b.ciphertext);
}

#[test]
fn changed_ciphertext_is_refused() {
    let vault = sample_vault();
    let mut envelope = parse_envelope(&encrypt_vault_with(&vault, "pw", &SALT, &NONCE).unwrap())
        .unwrap();
    let mut sealed = unb64(&envelope.ciphertext);
    sealed[3] ^= 0x10;
    envelope.ciphertext = b64(&sealed);
    assert_eq!(
        decrypt_vault(&render_envelope(&envelope), "pw"),
        Err(VaultError::Authentication)
    );
}

#[test]
fn changed_tag_is_refused() {
    let vault = sample_vault();
    let mut envelope = parse_envelope(&encrypt_vault_with(&vault, "pw", &SALT, &NONCE).unwrap())
        .unwrap();
    let mut sealed = unb64(&envelope.ciphertext);
    let last = sealed.len() - 1;
    sealed[last] ^= 0x01;
    envelope.ciphertext = b64(&sealed);
    assert_eq!(
        decrypt_vault(&render_envelope(&envelope), "pw"),
        Err(VaultError::Authentication)
    );
}

#[test]
fn changed_nonce_is_refused() {
    let vault = sample_vault();
    let mut envelope = parse_envelope(&encrypt_vault_with(&vault, "pw", &SALT, &NONCE).unwrap())
        .unwrap();
    let mut nonce = NONCE;
    nonce[0] ^= 0x80;
    envelope.nonce = b64(&nonce);
    assert_eq!(
        decrypt_vault(&render_envelope(&envelope), "pw"),
        Err(VaultError::Authentication)
    );
}

#[test]
fn changed_salt_is_refused() {
    let vault = sample_vault();
    let mut envelope = parse_envelope(&encrypt_vault_with(&vault, "pw", &SALT, &NONCE).unwrap())
        .unwrap();
    let mut salt = SALT;
    salt[15] ^= 0x01;
    envelope.salt = b64(&salt);
    assert_eq!(
        decrypt_vault(&render_envelope(&envelope), "pw"),
        Err(VaultError::Authentication)
    );
}

#[test]
fn flipped_bit_in_the_text_of_a_field_is_refused() {
    let vault = sample_vault();
    let text = encrypt_vault_with(&vault, "pw", &SALT, &NONCE).unwrap();
    let salt_at = text.find("\"salt\":\"").unwrap() + 8;
    let nonce_at = text.find("\"nonce\":\"").unwrap() + 9;
    let cipher_at = text.find("\"ciphertext\":\"").unwrap() + 14;
    for at in [salt_at + 21, nonce_at + 1, cipher_at + 5] {
        let r = decrypt_vault(&flip(&text, at), "pw");
        assert!(r == Err(VaultError::Authentication) || r == Err(VaultError::Format));
    }
}

#[test]
fn derive_key_is_argon2id_with_the_fixed_parameters() {
    let key = derive_key("correct horse", &SALT).unwrap();
    let params = argon2::Params::new(65536, 3, 1, Some(32)).unwrap();
    let hasher = argon2::Argon2::new(argon2::Algorithm::Argon2id, argon2::Version::V0x13, params);
    let mut expected = [0u8; 32];
    hasher.hash_password_into("correct horse".as_bytes(), &SALT, &mut expected).unwrap();
    assert_eq!(key, expected);
    assert_ne!(&key[..16], &SALT[..]);
    assert_ne!(key, [0u8; 32]);
}

#[test]
fn derive_key_depends_on_password_and_salt() {
    let a = derive_key("one", &SALT).unwrap();
    let b = derive_key("two", &SALT).unwrap();
    let mut other = SALT;
    other[0] = 99;
    let c = derive_key("one", &other).unwrap();
    assert_ne!(a, b);
    assert_ne!(a, c);
}

#[test]
fn derive_key_is_repeatable() {
    assert_eq!(derive_key("same", &SALT), derive_key("same", &SALT));
}

#[test]
fn derive_key_refuses_a_salt_that_argon2_refuses() {
    assert_eq!(derive_key("pw", &[1, 2, 3]), Err(VaultError::KeyDerivation));
    assert_eq!(derive_key("pw", &[]), Err(VaultError::KeyDerivation));
}

#[test]
fn key_from_hash_takes_the_first_32_bytes() {
    let hash: Vec<u8> = (0u8..40).collect();
    let key = key_from_hash(&hash).unwrap();
    assert_eq!(&key[..], &hash[..32]);
    let exact: Vec<u8> = (100u8..132).collect();
    assert_eq!(&key_from_hash(&exact).unwrap()[..], &exact[..]);
}

#[test]
fn key_from_hash_refuses_a_short_hash() {
    assert_eq!(key_from_hash(&[7u8; 31]), Err(VaultError::KeyDerivation));
    assert_eq!(key_from_hash(&[]), Err(VaultError::KeyDerivation));
}

#[test]
fn invalid_vault_is_not_exported() {
    let mut vault = sample_vault();
    vault.version = 2;
    assert_eq!(encrypt_vault(&vault, "pw"), Err(VaultError::Serialization));
    assert_eq!(encrypt_vault_with(&vault, "pw", &SALT, &NONCE), Err(VaultError::Serialization));
}

#[test]
fn export_refuses_short_salt_and_wrong_nonce() {
    let vault = sample_vault();
    assert_eq!(encrypt_vault_with(&vault, "pw", &SALT[..15], &NONCE), Err(VaultError::Format));
    assert_eq!(encrypt_vault_with(&vault, "pw", &SALT, &NONCE[..11]), Err(VaultError::Format));
    assert_eq!(encrypt_vault_with(&vault, "pw", &SALT, &[0u8; 13]), Err(VaultError::Format));
}

#[test]
fn other_format_or_version_is_unsupported() {
    let mut envelope = seal_by_hand(b"{}", "pw");
    envelope.fmt = "sshvault-export2".to_string();
    assert_eq!(
        decrypt_vault(&render_envelope(&envelope), "pw"),
        Err(VaultError::UnsupportedFormat)
    );
    let mut envelope = seal_by_hand(b"{}", "pw");
    envelope.v = 2;
    assert_eq!(
        decrypt_vault(&render_envelope(&envelope), "pw"),
        Err(VaultError::UnsupportedFormat)
    );
    envelope.v = 0;
    assert_eq!(open_envelope(&envelope, "pw"), Err(VaultError::UnsupportedFormat));
}

#[test]
fn text_that_is_no_envelope_is_a_format_error() {
    assert_eq!(decrypt_vault("", "pw"), Err(VaultError::Format));
    assert_eq!(decrypt_vault("not json", "pw"), Err(VaultError::Format));
    assert_eq!(decrypt_vault("{}", "pw"), Err(VaultError::Format));
    assert_eq!(
        decrypt_vault("{\"fmt\":\"sshvault-export\",\"v\":1,\"salt\":\"AAAA\"}", "pw"),
        Err(VaultError::Format)
    );
}

#[test]
fn fields_that_are_not_base64_are_format_errors() {
    let good = ExportFile {
        fmt: "sshvault-export".to_string(),
        v: 1,
        salt: b64(&SALT),
        nonce: b64(&NONCE),
        ciphertext: b64(&[0u8; 40]),
    };
    let mut e = good.clone();
    e.salt = "AAECAwQFBgcICQoLDA0ODw=".to_string();
    assert_eq!(open_envelope(&e, "pw"), Err(VaultError::Format));
    let mut e = good.clone();
    e.nonce = "AAECAwQF*gcICQoL".to_string();
    assert_eq!(open_envelope(&e, "pw"), Err(VaultError::Format));
    let mut e = good.clone();
    e.ciphertext = "AAECAwQFBgcICQoLDA0ODw".to_string();
    assert_eq!(open_envelope(&e, "pw"), Err(VaultError::Format));
    let mut e = good.clone();
    e.salt = "AAECAwQFBgcICQoLDA0OD-_=".to_string();
    assert_eq!(decrypt_vault(&render_envelope(&e), "pw"), Err(VaultError::Format));
}

#[test]
fn fields_of_the_wrong_length_are_format_errors() {
    let good = ExportFile {
        fmt: "sshvault-export".to_string(),
        v: 1,
        salt: b64(&SALT),
        nonce: b64(&NONCE),
        ciphertext: b64(&[0u8; 40]),
    };
    let mut e = good.clone();
    e.salt = b64(&SALT[..15]);
    assert_eq!(open_envelope(&e, "pw"), Err(VaultError::Format));
    let mut e = good.clone();
    e.nonce = b64(&NONCE[..11]);
    assert_eq!(open_envelope(&e, "pw"), Err(VaultError::Format));
    let mut e = good.clone();
    e.nonce = b64(&[0u8; 13]);
    assert_eq!(open_envelope(&e, "pw"), Err(VaultError::Format));
    let mut e = good.clone();
    e.ciphertext = b64(&[0u8; 15]);
    assert_eq!(open_envelope(&e, "pw"), Err(VaultError::Format));
    let mut e = good.clone();
    e.ciphertext = String::new();
    assert_eq!(decrypt_vault(&render_envelope(&e), "pw"), Err(VaultError::Format));
}

#[test]
fn sealed_bytes_that_are_no_vault_are_a_format_error() {
    let envelope = seal_by_hand(b"not a vault", "pw");
    assert_eq!(open_envelope(&envelope, "pw"), Ok(b"not a vault".to_vec()));
    assert_eq!(decrypt_vault(&render_envelope(&envelope), "pw"), Err(VaultError::Format));
}

#[test]
fn sealed_vault_of_another_version_is_a_format_error() {
    let mut vault = sample_vault();
    vault.version = 2;
    let envelope = seal_by_hand(serialize_vault(&vault).as_bytes(), "pw");
    assert_eq!(decrypt_vault(&render_envelope(&envelope), "pw"), Err(VaultError::Format));
}

#[test]
fn decrypted_bytes_are_read_strictly() {
    let vault = sample_vault();
    let text = serialize_vault(&vault);
    assert_eq!(read_vault_bytes(text.as_bytes().to_vec()), Ok(vault));
    assert_eq!(read_vault_bytes(vec![0xff, 0xfe]), Err(VaultError::Format));
    assert_eq!(read_vault_bytes(format!("{} ", text).into_bytes()), Err(VaultError::Format));
    assert_eq!(read_vault_bytes(Vec::new()), Err(VaultError::Format));
}

#[test]
fn empty_password_is_a_password_like_any_other() {
    let vault = sample_vault();
    let text = encrypt_vault_with(&vault, "", &SALT, &NONCE).unwrap();
    assert_eq!(decrypt_vault(&text, ""), Ok(vault));
}

#[test]
fn export_laid_out_with_white_space_is_imported() {
    let vault = sample_vault();
    let text = encrypt_vault_with(&vault, "pw", &SALT, &NONCE).unwrap();
    let laid_out = text
        .replace("{", "{ ")
        .replace(":", ": ")
        .replace(",", ",\n  ")
        .replace("}", " }\n");
    assert_ne!(laid_out, text);
    assert_eq!(decrypt_vault(&laid_out, "pw"), Ok(vault));
}

#[test]
fn sealed_bytes_are_the_text_of_the_vault_and_the_tag() {
    let vault = sample_vault();
    for text in [
        encrypt_vault_with(&vault, "pw", &SALT, &NONCE).unwrap(),
        encrypt_vault(&vault, "pw").unwrap(),
    ] {
        let envelope = parse_envelope(&text).unwrap();
        assert_eq!(unb64(&envelope.ciphertext).len(), serialize_vault(&vault).len() + 16);
        assert_eq!(unb64(&envelope.nonce).len(), 12);
        assert!(unb64(&envelope.salt).len() >= 16);
    }
}

#[test]
fn key_is_derived_for_every_salt_of_eight_bytes_or_more() {
    assert!(derive_key("", &[0u8; 8]).is_ok());
    assert!(derive_key("pw", &[7u8; 64]).is_ok());
    assert_eq!(derive_key("pw", &[0u8; 7]), Err(VaultError::KeyDerivation));
}
