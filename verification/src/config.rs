//! Application configuration as plain data. Loading and saving the
//! configuration file is the caller's concern; the library only holds the
//! values and derives the KDF parameters from them.

use vstd::prelude::*;

use crate::models::KdfParams;

verus! {

/// The settings the application runs under.
#[derive(Debug, Clone)]
pub struct AppConfig {
    pub vault_path: String,
    pub auto_lock_secs: u64,
    pub clipboard_clear_secs: u64,
    pub kdf_memory_cost_kib: u32,
    pub kdf_time_cost: u32,
    pub kdf_parallelism: u32,
}

impl Default for AppConfig {
    /// Five-minute auto-lock, thirty-second clipboard clear, and the default
    /// KDF costs; the vault lives at a relative path until the caller picks a
    /// real one.
    fn default() -> (r: Self)
        ensures
            r.auto_lock_secs == 300,
            r.clipboard_clear_secs == 30,
            r.kdf_memory_cost_kib == 65536,
            r.kdf_time_cost == 3,
            r.kdf_parallelism == 4,
    {
        AppConfig {
            vault_path: "vault.vltr".to_owned(),
            auto_lock_secs: 300,
            clipboard_clear_secs: 30,
            kdf_memory_cost_kib: 65536,
            kdf_time_cost: 3,
            kdf_parallelism: 4,
        }
    }
}

impl AppConfig {
    /// The KDF parameters these settings describe.
    pub fn kdf_params(&self) -> (r: KdfParams)
        ensures
            r.memory_cost_kib == self.kdf_memory_cost_kib,
            r.time_cost == self.kdf_time_cost,
            r.parallelism == self.kdf_parallelism,
    {
        KdfParams {
            memory_cost_kib: self.kdf_memory_cost_kib,
            time_cost: self.kdf_time_cost,
            parallelism: self.kdf_parallelism,
        }
    }
}

} // verus!
