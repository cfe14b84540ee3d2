//! The vault factory: registers deployed vault instances under
//! deterministic, count-derived salts.
//!
//! The actual code deployment belongs to the host; the factory's own logic
//! is the admin-guarded code-hash bookkeeping, the monotonically growing
//! vault registry, and the salt derivation. In this model a deployed
//! vault's address is its creation ordinal, which the deterministic salt
//! makes unique.

use vstd::prelude::*;

use crate::errors::VaultFactoryError;
use crate::types::VaultConfig;

verus! {

/// Create the deterministic deployment salt for the `count`-th vault: the
/// count in big-endian bytes, padded with zeroes.
pub fn create_salt(count: u32) -> (r: [u8; 32])
    ensures
        r@.len() == 32,
        r@[0] == (count >> 24u32) as u8,
        r@[1] == (count >> 16u32) as u8,
        r@[2] == (count >> 8u32) as u8,
        r@[3] == count as u8,
        forall|j: int| 4 <= j < 32 ==> r@[j] == 0u8,
{
    let b0 = #[verifier::truncate] ((count >> 24u32) as u8);
    let b1 = #[verifier::truncate] ((count >> 16u32) as u8);
    let b2 = #[verifier::truncate] ((count >> 8u32) as u8);
    let b3 = #[verifier::truncate] (count as u8);
    let salt: [u8; 32] = [
        b0,
        b1,
        b2,
        b3,
        0,
        0,
        0,
        0,
        0,
        0,
        0,
        0,
        0,
        0,
        0,
        0,
        0,
        0,
        0,
        0,
        0,
        0,
        0,
        0,
        0,
        0,
        0,
        0,
        0,
        0,
        0,
        0,
    ];
    salt
}

/// Two different counts always derive different salts: the four leading
/// bytes recover the count.
pub proof fn lemma_create_salt_injective(c: u32, d: u32)
    requires
        (c >> 24u32) as u8 == (d >> 24u32) as u8,
        (c >> 16u32) as u8 == (d >> 16u32) as u8,
        (c >> 8u32) as u8 == (d >> 8u32) as u8,
        c as u8 == d as u8,
    ensures
        c == d,
{
    assert((((c >> 24u32) as u8 == (d >> 24u32) as u8) && ((c >> 16u32) as u8 == (d >> 16u32)
        as u8) && ((c >> 8u32) as u8 == (d >> 8u32) as u8) && (c as u8 == d as u8)) ==> c == d)
        by (bit_vector);
}

/// The factory: admin, vault code hash, and the registry of deployed
/// vaults, addressed here by creation ordinal.
#[derive(Debug)]
pub struct VaultFactory {
    /// Administrator; absent until `initialize` has run.
    pub admin: Option<u32>,
    /// Hash of the vault code to deploy; absent until `initialize` has run.
    pub wasm_hash: Option<[u8; 32]>,
    /// Number of vaults created so far.
    pub vault_count: u32,
    /// Addresses of the deployed vaults, in creation order.
    pub vaults: Vec<u32>,
}

impl VaultFactory {
    /// Well-formedness: the registry matches the counter, and an
    /// uninitialized factory is empty.
    pub open spec fn wf(self) -> bool {
        &&& self.vaults@.len() == self.vault_count
        &&& (self.wasm_hash is None ==> self.vault_count == 0 && self.admin is None)
    }

    /// A fresh, uninitialized factory.
    pub fn new() -> (r: VaultFactory)
        ensures
            r.wf(),
            r.admin is None,
            r.wasm_hash is None,
            r.vault_count == 0,
            r.vaults@.len() == 0,
    {
        VaultFactory { admin: None, wasm_hash: None, vault_count: 0, vaults: Vec::new() }
    }

    /// Initialize the factory once with its administrator and the vault
    /// code hash.
    pub fn initialize(&mut self, admin: u32, wasm_hash: [u8; 32]) -> (r: Result<
        (),
        VaultFactoryError,
    >)
        requires
            old(self).wf(),
        ensures
            final(self).wf(),
            match r {
                Ok(()) => {
                    &&& old(self).wasm_hash is None
                    &&& final(self).admin == Some(admin)
                    &&& final(self).wasm_hash == Some(wasm_hash)
                    &&& final(self).vault_count == 0
                    &&& final(self).vaults@.len() == 0
                },
                Err(e) => {
                    &&& *final(self) == *old(self)
                    &&& e == VaultFactoryError::AlreadyInitialized
                    &&& old(self).wasm_hash is Some
                },
            },
    {
        if self.wasm_hash.is_some() {
            return Err(VaultFactoryError::AlreadyInitialized);
        }
        self.admin = Some(admin);
        self.wasm_hash = Some(wasm_hash);
        self.vault_count = 0;
        Ok(())
    }

    /// Replace the vault code hash; only the stored administrator may.
    pub fn update_wasm(&mut self, admin: u32, new_wasm_hash: [u8; 32]) -> (r: Result<
        (),
        VaultFactoryError,
    >)
        requires
            old(self).wf(),
        ensures
            final(self).wf(),
            match r {
                Ok(()) => {
                    &&& old(self).admin == Some(admin)
                    &&& final(self).wasm_hash == Some(new_wasm_hash)
                    &&& final(self).admin == old(self).admin
                    &&& final(self).vault_count == old(self).vault_count
                    &&& final(self).vaults@ == old(self).vaults@
                },
                Err(e) => {
                    &&& *final(self) == *old(self)
                    &&& (if old(self).admin is None {
                        e == VaultFactoryError::NotInitialized
                    } else {
                        e == VaultFactoryError::Unauthorized && old(self).admin != Some(admin)
                    })
                },
            },
    {
        let stored_admin = match self.admin {
            Some(a) => a,
            None => {
                return Err(VaultFactoryError::NotInitialized);
            },
        };
        if admin != stored_admin {
            return Err(VaultFactoryError::Unauthorized);
        }
        self.wasm_hash = Some(new_wasm_hash);
        Ok(())
    }

    /// Register a newly deployed vault: derive the next count-based salt,
    /// record the deployment, and return the vault's address. The
    /// configuration travels with the deployment; initialization of the
    /// vault itself happens in a separate call.
    pub fn create_vault(&mut self, config: &VaultConfig) -> (r: Result<u32, VaultFactoryError>)
        requires
            old(self).wf(),
        ensures
            final(self).wf(),
            match r {
                Ok(addr) => {
                    &&& old(self).wasm_hash is Some
                    &&& old(self).vault_count < u32::MAX
                    &&& addr == old(self).vault_count + 1
                    &&& final(self).vault_count == old(self).vault_count + 1
                    &&& final(self).vaults@ == old(self).vaults@.push(addr)
                    &&& final(self).wasm_hash == old(self).wasm_hash
                    &&& final(self).admin == old(self).admin
                },
                Err(e) => {
                    &&& *final(self) == *old(self)
                    &&& (if old(self).wasm_hash is None {
                        e == VaultFactoryError::NotInitialized
                    } else {
                        e == VaultFactoryError::InvalidConfiguration && old(self).vault_count
                            == u32::MAX
                    })
                },
            },
    {
        let _ = config;
        if self.wasm_hash.is_none() {
            return Err(VaultFactoryError::NotInitialized);
        }
        let vault_count = match self.vault_count.checked_add(1) {
            Some(v) => v,
            None => {
                return Err(VaultFactoryError::InvalidConfiguration);
            },
        };
        let _salt = create_salt(vault_count);
        let vault_address = vault_count;
        self.vault_count = vault_count;
        self.vaults.push(vault_address);
        Ok(vault_address)
    }

    /// The stored vault code hash, or `NotInitialized`.
    pub fn get_vault_wasm_hash(&self) -> (r: Result<[u8; 32], VaultFactoryError>)
        ensures
            match r {
                Ok(h) => self.wasm_hash == Some(h),
                Err(e) => e == VaultFactoryError::NotInitialized && self.wasm_hash is None,
            },
    {
        match self.wasm_hash {
            Some(h) => Ok(h),
            None => Err(VaultFactoryError::NotInitialized),
        }
    }

    /// Number of vaults created so far.
    pub fn get_vault_count(&self) -> (r: u32)
        ensures
            r == self.vault_count,
    {
        self.vault_count
    }

    /// The addresses of all deployed vaults, in creation order.
    pub fn get_vaults(&self) -> (r: Vec<u32>)
        ensures
            r@ == self.vaults@,
    {
        crate::types::copy_vec(&self.vaults)
    }

    /// The vault address at a creation index.
    pub fn get_vault_at(&self, index: u32) -> (r: Result<u32, VaultFactoryError>)
        ensures
            match r {
                Ok(addr) => index < self.vaults@.len() && addr == self.vaults@[index as int],
                Err(e) => e == VaultFactoryError::InvalidConfiguration && index
                    >= self.vaults@.len(),
            },
    {
        if (index as usize) < self.vaults.len() {
            Ok(self.vaults[index as usize])
        } else {
            Err(VaultFactoryError::InvalidConfiguration)
        }
    }
}

} // verus!
