//! The ways in which an export or an import fails.

use vstd::prelude::*;

verus! {

/// Why an export or an import failed. No failure is transient, and none
/// leaves partly decrypted or partly parsed data behind.
#[derive(Clone, Copy, Debug, PartialEq, Eq, Structural)]
pub enum VaultError {
    /// The key could not be derived from the passphrase and the salt.
    KeyDerivation,
    /// The integrity tag did not verify: the passphrase is wrong or the data
    /// was changed. The two are not told apart.
    Authentication,
    /// The envelope names another format or another format version.
    UnsupportedFormat,
    /// The envelope, its base64 fields or the decrypted vault is malformed.
    Format,
    /// The vault cannot be written down.
    Serialization,
    /// The operating system gave no random bytes.
    RandomSource,
}

impl VaultError {
    /// A sentence for the user.
    pub fn message(&self) -> (r: String)
        ensures
            r@ == match *self {
                VaultError::KeyDerivation => "Key derivation failed"@,
                VaultError::Authentication => "Decryption failed - wrong password or corrupted data"@,
                VaultError::UnsupportedFormat => "Unsupported export format"@,
                VaultError::Format => "Invalid export format"@,
                VaultError::Serialization => "Serialization failed"@,
                VaultError::RandomSource => "Random source failed"@,
            },
    {
        let text = match self {
            VaultError::KeyDerivation => "Key derivation failed",
            VaultError::Authentication => "Decryption failed - wrong password or corrupted data",
            VaultError::UnsupportedFormat => "Unsupported export format",
            VaultError::Format => "Invalid export format",
            VaultError::Serialization => "Serialization failed",
            VaultError::RandomSource => "Random source failed",
        };
        text.to_owned()
    }
}

} // verus!
