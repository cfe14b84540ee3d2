//! Fractional-ownership certificates over vaults: minting, transfer, and
//! profit distribution proportional to the recorded basis points.
//!
//! Certificates carry sequential identifiers starting at one, so the
//! `k`-th stored certificate has identifier `k + 1`; that correspondence is
//! the contract's central invariant.

use vstd::prelude::*;

use crate::errors::VaultNFTError;
use crate::types::{
    entries_distinct, find_entry, lemma_amount_absent, lemma_amount_prefix, lemma_amount_push,
    lemma_amount_update, spec_amount_of, AmountEntry, MAX_OWNERSHIP_PCT,
};

verus! {

/// One ownership certificate: a claim to `ownership_percentage` basis
/// points (out of 10000) of a vault's profits.
#[derive(Debug)]
pub struct VaultNFT {
    pub nft_id: u64,
    pub vault_address: u32,
    pub ownership_percentage: i128,
    pub holder: u32,
    pub metadata: String,
}

/// Descriptive metadata supplied at mint time.
#[derive(Debug)]
pub struct NFTMetadata {
    pub name: String,
    pub description: String,
    pub image_url: String,
    pub vault_performance: i128,
}

/// The stored metadata string for a certificate: its name.
pub fn format_metadata(metadata: &NFTMetadata) -> (r: String)
    ensures
        r@ == metadata.name@,
{
    metadata.name.clone()
}

/// Identifiers of the certificates minted over `vault_address`, in mint
/// order.
pub open spec fn spec_vault_nft_ids(s: Seq<VaultNFT>, vault_address: u32) -> Seq<u64>
    decreases s.len(),
{
    if s.len() == 0 {
        Seq::empty()
    } else {
        let rest = spec_vault_nft_ids(s.drop_last(), vault_address);
        if s.last().vault_address == vault_address {
            rest.push(s.last().nft_id)
        } else {
            rest
        }
    }
}

/// Sum of the ownership basis points recorded over `vault_address`.
pub open spec fn spec_total_ownership(s: Seq<VaultNFT>, vault_address: u32) -> int
    decreases s.len(),
{
    if s.len() == 0 {
        0
    } else {
        spec_total_ownership(s.drop_last(), vault_address) + if s.last().vault_address
            == vault_address {
            s.last().ownership_percentage as int
        } else {
            0
        }
    }
}

/// What `holder` is owed out of `profit` across the certificates over
/// `vault_address`: each certificate contributes
/// `floor(profit * ownership_percentage / 10000)`, with contributions that
/// round to nothing skipped.
pub open spec fn spec_holder_share(
    s: Seq<VaultNFT>,
    vault_address: u32,
    holder: u32,
    profit: int,
) -> int
    decreases s.len(),
{
    if s.len() == 0 {
        0
    } else {
        let rest = spec_holder_share(s.drop_last(), vault_address, holder, profit);
        let n = s.last();
        let share = (profit * n.ownership_percentage) / 10000;
        if n.vault_address == vault_address && n.holder == holder && share > 0 {
            rest + share
        } else {
            rest
        }
    }
}

/// The total ownership over a vault is bounded by 10000 basis points per
/// certificate.
proof fn lemma_total_ownership_bound(s: Seq<VaultNFT>, vault_address: u32)
    requires
        forall|k: int|
            0 <= k < s.len() ==> 0 < (#[trigger] s[k]).ownership_percentage <= MAX_OWNERSHIP_PCT,
    ensures
        0 <= spec_total_ownership(s, vault_address) <= s.len() * 10000,
    decreases s.len(),
{
    if s.len() > 0 {
        lemma_total_ownership_bound(s.drop_last(), vault_address);
        assert((s.len() - 1) * 10000 == s.len() * 10000 - 10000) by (nonlinear_arith);
    }
}

/// The certificate registry of one deployment.
#[derive(Debug)]
pub struct VaultNFTContract {
    /// Number of certificates minted; also the identifier of the newest.
    pub nft_counter: u64,
    /// All certificates, in mint order; the `k`-th has identifier `k + 1`.
    pub nfts: Vec<VaultNFT>,
}

impl VaultNFTContract {
    /// Well-formedness: sequential identifiers and valid basis points.
    pub open spec fn wf(self) -> bool {
        &&& self.nfts@.len() == self.nft_counter
        &&& forall|k: int| 0 <= k < self.nfts@.len() ==> (#[trigger] self.nfts@[k]).nft_id == k + 1
        &&& forall|k: int|
            0 <= k < self.nfts@.len() ==> 0 < (#[trigger] self.nfts@[k]).ownership_percentage
                <= MAX_OWNERSHIP_PCT
    }

    /// A fresh, empty registry.
    pub fn new() -> (r: VaultNFTContract)
        ensures
            r.wf(),
            r.nft_counter == 0,
            r.nfts@.len() == 0,
    {
        VaultNFTContract { nft_counter: 0, nfts: Vec::new() }
    }

    /// Mint a certificate over `vault_address` for `minter`, carrying
    /// `ownership_percentage` basis points (1 to 10000) and the metadata's
    /// name. Returns the new certificate's identifier. Authorization of the
    /// minter is the host's.
    pub fn mint_nft(
        &mut self,
        minter: u32,
        vault_address: u32,
        ownership_percentage: i128,
        metadata: NFTMetadata,
    ) -> (r: Result<u64, VaultNFTError>)
        requires
            old(self).wf(),
            old(self).nft_counter < u64::MAX,
        ensures
            final(self).wf(),
            match r {
                Ok(id) => {
                    &&& 0 < ownership_percentage <= MAX_OWNERSHIP_PCT
                    &&& id == old(self).nft_counter + 1
                    &&& final(self).nft_counter == old(self).nft_counter + 1
                    &&& final(self).nfts@.len() == old(self).nfts@.len() + 1
                    &&& (forall|k: int|
                        0 <= k < old(self).nfts@.len() ==> final(self).nfts@[k] == old(
                            self,
                        ).nfts@[k])
                    &&& ({
                        let n = final(self).nfts@.last();
                        &&& n.nft_id == id
                        &&& n.vault_address == vault_address
                        &&& n.ownership_percentage == ownership_percentage
                        &&& n.holder == minter
                        &&& n.metadata@ == metadata.name@
                    })
                },
                Err(e) => {
                    &&& final(self).nfts@ == old(self).nfts@
                    &&& final(self).nft_counter == old(self).nft_counter
                    &&& e == VaultNFTError::InvalidOwnership
                    &&& (ownership_percentage <= 0 || ownership_percentage > MAX_OWNERSHIP_PCT)
                },
            },
    {
        if ownership_percentage <= 0 || ownership_percentage > MAX_OWNERSHIP_PCT {
            return Err(VaultNFTError::InvalidOwnership);
        }
        let next_id = self.nft_counter + 1;
        let nft = VaultNFT {
            nft_id: next_id,
            vault_address,
            ownership_percentage,
            holder: minter,
            metadata: format_metadata(&metadata),
        };
        self.nfts.push(nft);
        self.nft_counter = next_id;
        Ok(next_id)
    }

    /// Transfer certificate `nft_id` from its holder `from` to `to`.
    /// Authorization of `from` is the host's.
    pub fn transfer(&mut self, nft_id: u64, from: u32, to: u32) -> (r: Result<(), VaultNFTError>)
        requires
            old(self).wf(),
        ensures
            final(self).wf(),
            final(self).nft_counter == old(self).nft_counter,
            final(self).nfts@.len() == old(self).nfts@.len(),
            match r {
                Ok(()) => {
                    &&& 1 <= nft_id <= old(self).nfts@.len()
                    &&& old(self).nfts@[nft_id - 1].holder == from
                    &&& final(self).nfts@[nft_id - 1].holder == to
                    &&& ({
                        let pre = old(self).nfts@[nft_id - 1];
                        let post = final(self).nfts@[nft_id - 1];
                        &&& post.nft_id == pre.nft_id
                        &&& post.vault_address == pre.vault_address
                        &&& post.ownership_percentage == pre.ownership_percentage
                        &&& post.metadata@ == pre.metadata@
                    })
                    &&& (forall|k: int|
                        0 <= k < old(self).nfts@.len() && k != nft_id - 1 ==> final(self).nfts@[k]
                            == old(self).nfts@[k])
                },
                Err(e) => {
                    &&& final(self).nfts@ == old(self).nfts@
                    &&& (if nft_id < 1 || nft_id > old(self).nfts@.len() {
                        e == VaultNFTError::NFTNotFound
                    } else {
                        e == VaultNFTError::Unauthorized && old(self).nfts@[nft_id - 1].holder
                            != from
                    })
                },
            },
    {
        if nft_id < 1 || nft_id > self.nfts.len() as u64 {
            return Err(VaultNFTError::NFTNotFound);
        }
        let idx = (nft_id - 1) as usize;
        if self.nfts[idx].holder != from {
            return Err(VaultNFTError::Unauthorized);
        }
        let ghost nfts0 = self.nfts@;
        let mut nft = self.nfts.remove(idx);
        nft.holder = to;
        self.nfts.insert(idx, nft);
        proof {
            assert forall|k: int| 0 <= k < nfts0.len() && k != idx implies self.nfts@[k]
                == nfts0[k] by {
                if k < idx {
                    assert(self.nfts@[k] == nfts0.remove(idx as int)[k]);
                } else {
                    assert(self.nfts@[k] == nfts0.remove(idx as int)[k - 1]);
                }
            }
        }
        Ok(())
    }

    /// The certificate with identifier `nft_id`.
    pub fn get_nft(&self, nft_id: u64) -> (r: Result<&VaultNFT, VaultNFTError>)
        requires
            self.wf(),
        ensures
            match r {
                Ok(n) => 1 <= nft_id <= self.nfts@.len() && *n == self.nfts@[nft_id - 1],
                Err(e) => e == VaultNFTError::NFTNotFound && (nft_id < 1 || nft_id
                    > self.nfts@.len()),
            },
    {
        if nft_id < 1 || nft_id > self.nfts.len() as u64 {
            return Err(VaultNFTError::NFTNotFound);
        }
        Ok(&self.nfts[(nft_id - 1) as usize])
    }

    /// Identifiers of all certificates over `vault_address`, in mint order.
    pub fn get_vault_nfts(&self, vault_address: u32) -> (r: Vec<u64>)
        ensures
            r@ == spec_vault_nft_ids(self.nfts@, vault_address),
    {
        let mut ids: Vec<u64> = Vec::new();
        let mut k: usize = 0;
        while k < self.nfts.len()
            invariant
                0 <= k <= self.nfts@.len(),
                ids@ == spec_vault_nft_ids(self.nfts@.take(k as int), vault_address),
            decreases self.nfts@.len() - k,
        {
            proof {
                assert(self.nfts@.take(k + 1).drop_last() =~= self.nfts@.take(k as int));
                assert(self.nfts@.take(k + 1).last() == self.nfts@[k as int]);
            }
            if self.nfts[k].vault_address == vault_address {
                ids.push(self.nfts[k].nft_id);
            }
            k = k + 1;
        }
        proof {
            assert(self.nfts@.take(self.nfts@.len() as int) =~= self.nfts@);
        }
        ids
    }

    /// Distribute `total_profit` across the holders of the certificates
    /// over `vault_address`: each certificate contributes its proportional
    /// truncated share, aggregated per holder; holders whose every share
    /// rounds to nothing receive no entry. Fails with `InvalidAmount` for a
    /// non-positive profit or on arithmetic overflow.
    pub fn distribute_profits(&self, vault_address: u32, total_profit: i128, token: u32) -> (r:
        Result<Vec<AmountEntry>, VaultNFTError>)
        requires
            self.wf(),
        ensures
            match r {
                Ok(d) => {
                    &&& total_profit > 0
                    &&& entries_distinct(d@)
                    &&& (forall|k: int| 0 <= k < d@.len() ==> (#[trigger] d@[k]).amount > 0)
                    &&& (forall|h: u32|
                        #[trigger] spec_amount_of(d@, h) == spec_holder_share(
                            self.nfts@,
                            vault_address,
                            h,
                            total_profit as int,
                        ))
                },
                Err(e) => {
                    &&& e == VaultNFTError::InvalidAmount
                },
            },
    {
        let _ = token;
        if total_profit <= 0 {
            return Err(VaultNFTError::InvalidAmount);
        }
        let mut distributions: Vec<AmountEntry> = Vec::new();
        let mut k: usize = 0;
        while k < self.nfts.len()
            invariant
                0 <= k <= self.nfts@.len(),
                self.wf(),
                total_profit > 0,
                entries_distinct(distributions@),
                forall|m: int|
                    0 <= m < distributions@.len() ==> (#[trigger] distributions@[m]).amount > 0,
                forall|h: u32|
                    #[trigger] spec_amount_of(distributions@, h) == spec_holder_share(
                        self.nfts@.take(k as int),
                        vault_address,
                        h,
                        total_profit as int,
                    ),
            decreases self.nfts@.len() - k,
        {
            let ghost dist_before = distributions@;
            proof {
                assert(self.nfts@.take(k + 1).drop_last() =~= self.nfts@.take(k as int));
                assert(self.nfts@.take(k + 1).last() == self.nfts@[k as int]);
            }
            let nft = &self.nfts[k];
            if nft.vault_address == vault_address {
                let prod = match total_profit.checked_mul(nft.ownership_percentage) {
                    Some(v) => v,
                    None => {
                        return Err(VaultNFTError::InvalidAmount);
                    },
                };
                proof {
                    vstd::arithmetic::mul::lemma_mul_nonnegative(
                        total_profit as int,
                        nft.ownership_percentage as int,
                    );
                    vstd::arithmetic::div_mod::lemma_div_pos_is_pos(prod as int, 10000);
                }
                let holder_share = prod / 10000;
                if holder_share > 0 {
                    let holder = nft.holder;
                    let ghost dist0 = dist_before;
                    match find_entry(&distributions, holder) {
                        Some(i) => {
                            let entry = distributions[i];
                            proof {
                                lemma_amount_prefix(dist0, i as int, holder);
                            }
                            let new_amount = match entry.amount.checked_add(holder_share) {
                                Some(v) => v,
                                None => {
                                    return Err(VaultNFTError::InvalidAmount);
                                },
                            };
                            let updated = AmountEntry { user: holder, amount: new_amount };
                            distributions.set(i, updated);
                            proof {
                                lemma_amount_update(dist0, i as int, updated, holder);
                                assert forall|u: u32| u != holder implies spec_amount_of(
                                    distributions@,
                                    u,
                                ) == spec_amount_of(dist0, u) by {
                                    lemma_amount_update(dist0, i as int, updated, u);
                                }
                                assert forall|p: int, q: int|
                                    0 <= p < q < distributions@.len() implies (
                                #[trigger] distributions@[p]).user != (
                                #[trigger] distributions@[q]).user by {
                                    assert(dist0[p].user != dist0[q].user);
                                }
                            }
                        },
                        None => {
                            proof {
                                lemma_amount_absent(dist0, holder);
                            }
                            let entry = AmountEntry { user: holder, amount: holder_share };
                            distributions.push(entry);
                            proof {
                                lemma_amount_push(dist0, entry, holder);
                                assert forall|u: u32| u != holder implies spec_amount_of(
                                    distributions@,
                                    u,
                                ) == spec_amount_of(dist0, u) by {
                                    lemma_amount_push(dist0, entry, u);
                                }
                                assert forall|p: int, q: int|
                                    0 <= p < q < distributions@.len() implies (
                                #[trigger] distributions@[p]).user != (
                                #[trigger] distributions@[q]).user by {
                                    if q < dist0.len() {
                                        assert(dist0[p].user != dist0[q].user);
                                    } else {
                                        assert(distributions@[q] == entry && distributions@[p]
                                            == dist0[p]);
                                    }
                                }
                            }
                        },
                    }
                }
            }
            proof {
                let s1 = self.nfts@.take(k + 1);
                let n = self.nfts@[k as int];
                let share = ((total_profit as int) * n.ownership_percentage) / 10000;
                assert forall|h: u32| #[trigger] spec_amount_of(distributions@, h)
                    == spec_holder_share(s1, vault_address, h, total_profit as int) by {
                    if n.vault_address == vault_address && share > 0 {
                        if h == n.holder {
                            assert(spec_amount_of(distributions@, h) == spec_amount_of(
                                dist_before,
                                h,
                            ) + share);
                        } else {
                            assert(spec_amount_of(distributions@, h) == spec_amount_of(
                                dist_before,
                                h,
                            ));
                        }
                    } else {
                        assert(distributions@ == dist_before);
                    }
                }
            }
            k = k + 1;
        }
        proof {
            assert(self.nfts@.take(self.nfts@.len() as int) =~= self.nfts@);
        }
        Ok(distributions)
    }

    /// The summed ownership basis points recorded over `vault_address`;
    /// at most 10000 when minting is kept within one vault's budget, though
    /// the registry itself does not enforce that ceiling.
    pub fn get_total_ownership(&self, vault_address: u32) -> (r: Result<i128, VaultNFTError>)
        requires
            self.wf(),
            self.nfts@.len() * 10000 <= i128::MAX,
        ensures
            r == Ok::<i128, VaultNFTError>(
                spec_total_ownership(self.nfts@, vault_address) as i128,
            ),
    {
        let mut total: i128 = 0;
        let mut k: usize = 0;
        while k < self.nfts.len()
            invariant
                0 <= k <= self.nfts@.len(),
                self.wf(),
                self.nfts@.len() * 10000 <= i128::MAX,
                total == spec_total_ownership(self.nfts@.take(k as int), vault_address),
            decreases self.nfts@.len() - k,
        {
            proof {
                assert(self.nfts@.take(k + 1).drop_last() =~= self.nfts@.take(k as int));
                assert(self.nfts@.take(k + 1).last() == self.nfts@[k as int]);
                assert forall|m: int|
                    0 <= m < self.nfts@.take(k as int).len() implies 0 < (#[trigger] self.nfts@.take(
                    k as int,
                )[m]).ownership_percentage <= MAX_OWNERSHIP_PCT by {
                    assert(self.nfts@.take(k as int)[m] == self.nfts@[m]);
                }
                lemma_total_ownership_bound(self.nfts@.take(k as int), vault_address);
                assert((k as int) * 10000 <= self.nfts@.len() * 10000) by (nonlinear_arith)
                    requires
                        0 <= k <= self.nfts@.len(),
                ;
            }
            if self.nfts[k].vault_address == vault_address {
                total = total + self.nfts[k].ownership_percentage;
            }
            k = k + 1;
        }
        proof {
            assert(self.nfts@.take(self.nfts@.len() as int) =~= self.nfts@);
        }
        Ok(total)
    }
}

} // verus!
