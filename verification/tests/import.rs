use sshvault::crypto::encrypt_vault_with;
use sshvault::error::VaultError;
use sshvault::import::{apply_import, decode_import, import_step, ImportEvent, ImportState};
use sshvault::models::{Group, Host, Vault};

const SALT: [u8; 16] = [9; 16];
const NONCE: [u8; 12] = [3; 12];

fn current() -> Vault {
    Vault {
        version: 1,
        groups: vec![Group { name: "prod".to_string(), created_at: 1 }],
        hosts: vec![Host::from_parts("a".to_string(), 1, "db1".to_string(), "example.com".to_string(), 22)],
    }
}

fn incoming() -> Vault {
    Vault {
        version: 1,
        groups: vec![Group { name: "prod".to_string(), created_at: 2 }],
        hosts: vec![Host::from_parts("b".to_string(), 2, "web1".to_string(), "10.0.0.5".to_string(), 22)],
    }
}

#[test]
fn import_in_merge_mode_goes_through_its_states() {
    let bytes = encrypt_vault_with(&incoming(), "pw", &SALT, &NONCE).unwrap().into_bytes();
    let s = import_step(ImportState::Received(bytes), ImportEvent::Password("pw".to_string()));
    assert_eq!(s, ImportState::Decrypted(incoming()));
    let s = import_step(s, ImportEvent::Merge(current()));
    let mut both = current();
    both.hosts.push(incoming().hosts.remove(0));
    assert_eq!(s, ImportState::Merged(both.clone()));
    let s = import_step(s, ImportEvent::Saved);
    assert_eq!(s, ImportState::Persisted(both.clone()));
    assert_eq!(both.groups.len(), 1);
    assert_eq!(both.hosts.len(), 2);
}

#[test]
fn import_in_replace_mode_keeps_the_imported_vault() {
    let s = import_step(ImportState::Decrypted(incoming()), ImportEvent::Replace);
    assert_eq!(s, ImportState::Replaced(incoming()));
    let s = import_step(s, ImportEvent::Saved);
    assert_eq!(s, ImportState::Persisted(incoming()));
}

#[test]
fn failed_import_stays_failed() {
    let bytes = encrypt_vault_with(&incoming(), "pw", &SALT, &NONCE).unwrap().into_bytes();
    let s = import_step(ImportState::Received(bytes), ImportEvent::Password("no".to_string()));
    assert_eq!(s, ImportState::Failed(VaultError::Authentication));
    let s = import_step(s, ImportEvent::Merge(current()));
    assert_eq!(s, ImportState::Failed(VaultError::Authentication));
    let s = import_step(s, ImportEvent::Replace);
    assert_eq!(s, ImportState::Failed(VaultError::Authentication));
    let s = import_step(s, ImportEvent::Saved);
    assert_eq!(s, ImportState::Failed(VaultError::Authentication));
}

#[test]
fn event_that_does_not_fit_changes_nothing() {
    let s = import_step(ImportState::Received(vec![1, 2]), ImportEvent::Saved);
    assert_eq!(s, ImportState::Received(vec![1, 2]));
    let s = import_step(ImportState::Received(vec![1, 2]), ImportEvent::Replace);
    assert_eq!(s, ImportState::Received(vec![1, 2]));
    let s = import_step(ImportState::Decrypted(incoming()), ImportEvent::Saved);
    assert_eq!(s, ImportState::Decrypted(incoming()));
    let s = import_step(ImportState::Decrypted(incoming()), ImportEvent::Password("x".to_string()));
    assert_eq!(s, ImportState::Decrypted(incoming()));
    let s = import_step(ImportState::Merged(incoming()), ImportEvent::Replace);
    assert_eq!(s, ImportState::Merged(incoming()));
    let s = import_step(ImportState::Persisted(incoming()), ImportEvent::Saved);
    assert_eq!(s, ImportState::Persisted(incoming()));
}

#[test]
fn bytes_that_are_not_utf8_are_a_format_error() {
    assert_eq!(decode_import(vec![0xff, 0xfe, 0x00], "pw"), Err(VaultError::Format));
    assert_eq!(decode_import(vec![0xc3], "pw"), Err(VaultError::Format));
    let s = import_step(ImportState::Received(vec![0x80]), ImportEvent::Password("pw".to_string()));
    assert_eq!(s, ImportState::Failed(VaultError::Format));
}

#[test]
fn bytes_of_an_export_are_imported() {
    let bytes = encrypt_vault_with(&incoming(), "pw", &SALT, &NONCE).unwrap().into_bytes();
    assert_eq!(decode_import(bytes, "pw"), Ok(incoming()));
}

#[test]
fn apply_import_merges_or_replaces() {
    let mut both = current();
    both.hosts.push(incoming().hosts.remove(0));
    assert_eq!(apply_import(current(), incoming(), true), both);
    assert_eq!(apply_import(current(), incoming(), false), incoming());
}
