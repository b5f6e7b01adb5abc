//! The course of an import, step by step.
//!
//! An import starts with the bytes of a file. With the passphrase they are
//! decrypted into a vault, or the import fails. A decrypted vault is merged
//! into the current one or replaces it, and the outcome is handed to whoever
//! keeps the vault on disk. Reading the current vault and writing the
//! outcome happen outside; this module decides what follows from each of
//! them.

use vstd::prelude::*;
use vstd::utf8::{decode_utf8, valid_utf8};
use crate::crypto::{decodes, decrypt_vault, outcome};
use crate::error::VaultError;
use crate::merge::{merge_vaults, merged};
use crate::models::{Vault, VaultView};

verus! {

/// Where an import stands.
#[derive(Debug, PartialEq, Eq)]
pub enum ImportState {
    /// The bytes of the file are there.
    Received(Vec<u8>),
    /// The file gave this vault.
    Decrypted(Vault),
    /// The imported vault was merged into the current one, with this
    /// outcome, which is not yet written.
    Merged(Vault),
    /// The imported vault is to replace the current one, and is not yet
    /// written.
    Replaced(Vault),
    /// The outcome is written.
    Persisted(Vault),
    /// The import failed; nothing was written.
    Failed(VaultError),
}

/// What happens to an import.
#[derive(Debug, PartialEq, Eq)]
pub enum ImportEvent {
    /// The passphrase is given.
    Password(String),
    /// The import is to be merged into this vault, the current one.
    Merge(Vault),
    /// The import is to replace the current vault.
    Replace,
    /// The outcome was written.
    Saved,
}

/// The view of an [`ImportState`].
pub enum ImportStateView {
    Received(Seq<u8>),
    Decrypted(VaultView),
    Merged(VaultView),
    Replaced(VaultView),
    Persisted(VaultView),
    Failed(VaultError),
}

/// The view of an [`ImportEvent`].
pub enum ImportEventView {
    Password(Seq<char>),
    Merge(VaultView),
    Replace,
    Saved,
}

impl View for ImportState {
    type V = ImportStateView;

    open spec fn view(&self) -> ImportStateView {
        match self {
            ImportState::Received(bytes) => ImportStateView::Received(bytes@),
            ImportState::Decrypted(v) => ImportStateView::Decrypted(v@),
            ImportState::Merged(v) => ImportStateView::Merged(v@),
            ImportState::Replaced(v) => ImportStateView::Replaced(v@),
            ImportState::Persisted(v) => ImportStateView::Persisted(v@),
            ImportState::Failed(e) => ImportStateView::Failed(*e),
        }
    }
}

impl View for ImportEvent {
    type V = ImportEventView;

    open spec fn view(&self) -> ImportEventView {
        match self {
            ImportEvent::Password(p) => ImportEventView::Password(p@),
            ImportEvent::Merge(v) => ImportEventView::Merge(v@),
            ImportEvent::Replace => ImportEventView::Replace,
            ImportEvent::Saved => ImportEventView::Saved,
        }
    }
}

/// `out` is what importing the bytes of a file under `password` gives:
/// bytes that are not UTF-8 are a format error, and UTF-8 bytes give what
/// their text gives.
pub open spec fn imports(
    bytes: Seq<u8>,
    password: Seq<char>,
    out: Result<VaultView, VaultError>,
) -> bool {
    if valid_utf8(bytes) {
        decodes(decode_utf8(bytes), password, out)
    } else {
        out == Err::<VaultView, VaultError>(VaultError::Format)
    }
}

/// `next` is where the import stands after `event` happened in `state`. An
/// event that does not fit the state changes nothing.
pub open spec fn steps_to(
    state: ImportStateView,
    event: ImportEventView,
    next: ImportStateView,
) -> bool {
    match (state, event) {
        (ImportStateView::Received(bytes), ImportEventView::Password(password)) => match next {
            ImportStateView::Decrypted(v) => imports(
                bytes,
                password,
                Ok::<VaultView, VaultError>(v),
            ),
            ImportStateView::Failed(e) => imports(bytes, password, Err::<VaultView, VaultError>(e)),
            _ => false,
        },
        (ImportStateView::Decrypted(v), ImportEventView::Merge(current)) => next
            == ImportStateView::Merged(merged(current, v)),
        (ImportStateView::Decrypted(v), ImportEventView::Replace) => next
            == ImportStateView::Replaced(v),
        (ImportStateView::Merged(v), ImportEventView::Saved) => next == ImportStateView::Persisted(
            v,
        ),
        (ImportStateView::Replaced(v), ImportEventView::Saved) => next
            == ImportStateView::Persisted(v),
        _ => next == state,
    }
}

/// Imports the vault from the bytes of an export file, under `password`.
pub fn decode_import(file_bytes: Vec<u8>, password: &str) -> (r: Result<Vault, VaultError>)
    ensures
        imports(file_bytes@, password@, outcome(r)),
{
    match String::from_utf8(file_bytes) {
        Ok(text) => decrypt_vault(text.as_str(), password),
        Err(_) => Err(VaultError::Format),
    }
}

/// The vault that an import leaves: the current vault with the imported one
/// merged into it, or the imported vault as it is.
pub fn apply_import(current: Vault, imported: Vault, merge: bool) -> (r: Vault)
    ensures
        r@ == if merge {
            merged(current@, imported@)
        } else {
            imported@
        },
{
    if merge {
        let mut current = current;
        merge_vaults(&mut current, imported);
        current
    } else {
        imported
    }
}

/// Takes the import one step further. A failure is final, and so is a
/// written outcome.
pub fn import_step(state: ImportState, event: ImportEvent) -> (next: ImportState)
    ensures
        steps_to(state@, event@, next@),
{
    match (state, event) {
        (ImportState::Received(bytes), ImportEvent::Password(password)) => {
            match decode_import(bytes, password.as_str()) {
                Ok(v) => ImportState::Decrypted(v),
                Err(e) => ImportState::Failed(e),
            }
        },
        (ImportState::Decrypted(v), ImportEvent::Merge(current)) => ImportState::Merged(
            apply_import(current, v, true),
        ),
        (ImportState::Decrypted(v), ImportEvent::Replace) => ImportState::Replaced(v),
        (ImportState::Merged(v), ImportEvent::Saved) => ImportState::Persisted(v),
        (ImportState::Replaced(v), ImportEvent::Saved) => ImportState::Persisted(v),
        (state, _) => state,
    }
}

} // verus!
