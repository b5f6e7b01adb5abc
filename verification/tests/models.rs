use sshvault::error::VaultError;
use sshvault::models::{Host, IdKind, IdTag, Vault};

#[test]
fn new_host_is_bare() {
    let h = Host::new("db1".to_string(), "example.com".to_string(), 2222, 1_700_000_000).unwrap();
    assert_eq!(h.name, "db1");
    assert_eq!(h.hostname, "example.com");
    assert_eq!(h.port, 2222);
    assert_eq!(h.username, None);
    assert_eq!(h.auth, IdKind::Agent);
    assert_eq!(h.group, None);
    assert!(h.tags.is_empty());
    assert_eq!(h.notes, None);
    assert_eq!(h.created_at, 1_700_000_000);
    assert_eq!(h.updated_at, 1_700_000_000);
}

#[test]
fn new_host_has_a_random_uuid() {
    let a = Host::new("a".to_string(), "h".to_string(), 22, -5).unwrap();
    let b = Host::new("a".to_string(), "h".to_string(), 22, -5).unwrap();
    assert_eq!(a.id.len(), 36);
    assert_ne!(a.id, b.id);
    let bytes = a.id.as_bytes();
    for (i, c) in bytes.iter().enumerate() {
        if i == 8 || i == 13 || i == 18 || i == 23 {
            assert_eq!(*c, b'-');
        } else {
            assert!(c.is_ascii_hexdigit() && !c.is_ascii_uppercase());
        }
    }
    assert_eq!(bytes[14], b'4');
    assert!(bytes[19] == b'8' || bytes[19] == b'9' || bytes[19] == b'a' || bytes[19] == b'b');
    assert_eq!(a.created_at, -5);
}

#[test]
fn kind_and_path_are_put_together_or_refused() {
    assert_eq!(IdKind::from_parts(IdTag::Agent, None), Some(IdKind::Agent));
    assert_eq!(
        IdKind::from_parts(IdTag::KeyPath, Some("/k".to_string())),
        Some(IdKind::KeyPath("/k".to_string()))
    );
    assert_eq!(IdKind::from_parts(IdTag::KeyPath, Some(String::new())), Some(IdKind::KeyPath(String::new())));
    assert_eq!(IdKind::from_parts(IdTag::Agent, Some("/k".to_string())), None);
    assert_eq!(IdKind::from_parts(IdTag::Agent, Some(String::new())), None);
    assert_eq!(IdKind::from_parts(IdTag::KeyPath, None), None);
}

#[test]
fn kind_is_taken_apart_into_what_it_was_made_of() {
    assert_eq!(IdKind::Agent.into_parts(), (IdTag::Agent, None));
    assert_eq!(
        IdKind::KeyPath("/k".to_string()).into_parts(),
        (IdTag::KeyPath, Some("/k".to_string()))
    );
}

#[test]
fn host_from_parts_takes_what_it_is_given() {
    let h = Host::from_parts("the-id".to_string(), 42, "n".to_string(), "h".to_string(), 1);
    assert_eq!(
        h,
        Host {
            id: "the-id".to_string(),
            name: "n".to_string(),
            hostname: "h".to_string(),
            port: 1,
            username: None,
            auth: IdKind::Agent,
            group: None,
            tags: vec![],
            notes: None,
            created_at: 42,
            updated_at: 42,
        }
    );
}

#[test]
fn clone_copies_every_field() {
    let mut h = Host::from_parts("i".to_string(), 1, "n".to_string(), "h".to_string(), 1);
    h.username = Some("u".to_string());
    h.auth = IdKind::KeyPath("k".to_string());
    h.group = Some("g".to_string());
    h.tags = vec!["t".to_string(), "u".to_string()];
    h.notes = Some("x".to_string());
    h.updated_at = 2;
    let v = Vault { version: 1, groups: vec![], hosts: vec![h] };
    assert_eq!(v.clone(), v);
}

#[test]
fn errors_have_their_sentences() {
    assert_eq!(
        VaultError::Authentication.message(),
        "Decryption failed - wrong password or corrupted data"
    );
    assert_eq!(VaultError::UnsupportedFormat.message(), "Unsupported export format");
    assert_eq!(VaultError::Format.message(), "Invalid export format");
    assert_eq!(VaultError::KeyDerivation.message(), "Key derivation failed");
    assert_eq!(VaultError::Serialization.message(), "Serialization failed");
    assert_eq!(VaultError::RandomSource.message(), "Random source failed");
}
