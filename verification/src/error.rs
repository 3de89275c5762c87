use vstd::prelude::*;

verus! {

/// Every fallible operation of the library reports one of these conditions.
///
/// `WrongPassword` is deliberately also the report for a corrupted ciphertext:
/// authenticated encryption cannot tell the two apart, and the library does
/// not try to.
#[derive(Debug, Clone)]
pub enum VaulturaError {
    /// A disk or stream error, surfaced verbatim by the caller that did the I/O.
    Io(String),
    /// The payload bytes produced by decryption could not be decoded.
    Serialization(String),
    /// The file is too short, or its magic or version field is wrong.
    InvalidVaultFile { reason: String },
    /// Authentication failed during decryption: wrong master password or a
    /// tampered ciphertext.
    WrongPassword,
    /// An operation that needs the decrypted payload was called while locked.
    VaultLocked,
    /// The cipher refused to encrypt.
    Encryption(String),
    /// The cipher refused to decrypt for a reason other than authentication.
    Decryption(String),
    /// The key-derivation function rejected its parameters or failed.
    Kdf(String),
    /// No item carries the given identifier.
    ItemNotFound(u128),
    /// No group carries the given identifier.
    GroupNotFound(u128),
    /// The system clipboard could not be reached.
    Clipboard(String),
    /// The configuration file could not be read or written.
    Config(String),
}

impl VaulturaError {
    /// A short human-readable description of the error kind.
    pub fn describe(&self) -> (r: String)
        ensures
            r@.len() > 0,
    {
        proof {
            reveal_strlit("I/O error");
            reveal_strlit("Serialization error");
            reveal_strlit("Invalid vault file");
            reveal_strlit("Wrong master password");
            reveal_strlit("Vault is locked");
            reveal_strlit("Encryption error");
            reveal_strlit("Decryption error");
            reveal_strlit("KDF error");
            reveal_strlit("Item not found");
            reveal_strlit("Group not found");
            reveal_strlit("Clipboard error");
            reveal_strlit("Config error");
        }
        match self {
            VaulturaError::Io(_) => "I/O error".to_owned(),
            VaulturaError::Serialization(_) => "Serialization error".to_owned(),
            VaulturaError::InvalidVaultFile { .. } => "Invalid vault file".to_owned(),
            VaulturaError::WrongPassword => "Wrong master password".to_owned(),
            VaulturaError::VaultLocked => "Vault is locked".to_owned(),
            VaulturaError::Encryption(_) => "Encryption error".to_owned(),
            VaulturaError::Decryption(_) => "Decryption error".to_owned(),
            VaulturaError::Kdf(_) => "KDF error".to_owned(),
            VaulturaError::ItemNotFound(_) => "Item not found".to_owned(),
            VaulturaError::GroupNotFound(_) => "Group not found".to_owned(),
            VaulturaError::Clipboard(_) => "Clipboard error".to_owned(),
            VaulturaError::Config(_) => "Config error".to_owned(),
        }
    }
}

} // verus!
