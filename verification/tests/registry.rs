//! The vault factory and the ownership-certificate registry.

use vault_core::errors::{VaultFactoryError, VaultNFTError};
use vault_core::factory::{create_salt, VaultFactory};
use vault_core::nft::{NFTMetadata, VaultNFTContract};
use vault_core::types::VaultConfig;

fn factory_config() -> VaultConfig {
    VaultConfig {
        owner: 1,
        name: String::from("deployed"),
        assets: vec![10],
        rules: vec![],
        router_address: None,
        staking_pool_address: None,
        factory_address: None,
    }
}

fn metadata(name: &str) -> NFTMetadata {
    NFTMetadata {
        name: String::from(name),
        description: String::from("a certificate"),
        image_url: String::from("ipfs://cert"),
        vault_performance: 0,
    }
}

#[test]
fn salt_encodes_the_count_big_endian() {
    let salt = create_salt(7);
    assert_eq!(&salt[0..4], &[0, 0, 0, 7]);
    assert!(salt[4..].iter().all(|&b| b == 0));
    let salt2 = create_salt(0x0102_0304);
    assert_eq!(&salt2[0..4], &[1, 2, 3, 4]);
    assert_ne!(salt, salt2);
}

#[test]
fn factory_initializes_once() {
    let mut factory = VaultFactory::new();
    assert_eq!(factory.get_vault_wasm_hash(), Err(VaultFactoryError::NotInitialized));
    assert_eq!(factory.initialize(1, [7u8; 32]), Ok(()));
    assert_eq!(factory.get_vault_wasm_hash(), Ok([7u8; 32]));
    assert_eq!(factory.initialize(2, [8u8; 32]), Err(VaultFactoryError::AlreadyInitialized));
}

#[test]
fn factory_registers_vaults_in_creation_order() {
    let mut factory = VaultFactory::new();
    factory.initialize(1, [7u8; 32]).unwrap();
    assert_eq!(factory.get_vault_count(), 0);
    let first = factory.create_vault(&factory_config()).unwrap();
    let second = factory.create_vault(&factory_config()).unwrap();
    assert_eq!(first, 1);
    assert_eq!(second, 2);
    assert_eq!(factory.get_vault_count(), 2);
    assert_eq!(factory.get_vaults(), vec![1, 2]);
    assert_eq!(factory.get_vault_at(0), Ok(1));
    assert_eq!(factory.get_vault_at(1), Ok(2));
    assert_eq!(factory.get_vault_at(2), Err(VaultFactoryError::InvalidConfiguration));
}

#[test]
fn factory_rejects_creation_before_initialization() {
    let mut factory = VaultFactory::new();
    assert_eq!(factory.create_vault(&factory_config()), Err(VaultFactoryError::NotInitialized));
}

#[test]
fn wasm_update_is_admin_only() {
    let mut factory = VaultFactory::new();
    factory.initialize(1, [7u8; 32]).unwrap();
    assert_eq!(factory.update_wasm(2, [9u8; 32]), Err(VaultFactoryError::Unauthorized));
    assert_eq!(factory.get_vault_wasm_hash(), Ok([7u8; 32]));
    assert_eq!(factory.update_wasm(1, [9u8; 32]), Ok(()));
    assert_eq!(factory.get_vault_wasm_hash(), Ok([9u8; 32]));
}

#[test]
fn minting_assigns_sequential_identifiers() {
    let mut registry = VaultNFTContract::new();
    let first = registry.mint_nft(100, 7, 5000, metadata("gold")).unwrap();
    let second = registry.mint_nft(101, 7, 2500, metadata("silver")).unwrap();
    assert_eq!(first, 1);
    assert_eq!(second, 2);
    let nft = registry.get_nft(1).unwrap();
    assert_eq!(nft.nft_id, 1);
    assert_eq!(nft.vault_address, 7);
    assert_eq!(nft.ownership_percentage, 5000);
    assert_eq!(nft.holder, 100);
    assert_eq!(nft.metadata, "gold");
    assert_eq!(registry.get_nft(3).err(), Some(VaultNFTError::NFTNotFound));
    assert_eq!(registry.get_nft(0).err(), Some(VaultNFTError::NFTNotFound));
}

#[test]
fn minting_validates_the_basis_points() {
    let mut registry = VaultNFTContract::new();
    assert_eq!(registry.mint_nft(100, 7, 0, metadata("zero")), Err(VaultNFTError::InvalidOwnership));
    assert_eq!(
        registry.mint_nft(100, 7, -1, metadata("negative")),
        Err(VaultNFTError::InvalidOwnership)
    );
    assert_eq!(
        registry.mint_nft(100, 7, 10001, metadata("too much")),
        Err(VaultNFTError::InvalidOwnership)
    );
    assert_eq!(registry.nft_counter, 0);
}

#[test]
fn transfer_moves_the_certificate_between_holders() {
    let mut registry = VaultNFTContract::new();
    registry.mint_nft(100, 7, 5000, metadata("gold")).unwrap();
    assert_eq!(registry.transfer(1, 101, 102), Err(VaultNFTError::Unauthorized));
    assert_eq!(registry.transfer(9, 100, 102), Err(VaultNFTError::NFTNotFound));
    assert_eq!(registry.transfer(1, 100, 102), Ok(()));
    assert_eq!(registry.get_nft(1).unwrap().holder, 102);
    assert_eq!(registry.get_nft(1).unwrap().ownership_percentage, 5000);
}

#[test]
fn vault_nft_listing_filters_by_vault() {
    let mut registry = VaultNFTContract::new();
    registry.mint_nft(100, 7, 1000, metadata("a")).unwrap();
    registry.mint_nft(100, 8, 1000, metadata("b")).unwrap();
    registry.mint_nft(101, 7, 1000, metadata("c")).unwrap();
    assert_eq!(registry.get_vault_nfts(7), vec![1, 3]);
    assert_eq!(registry.get_vault_nfts(8), vec![2]);
    assert_eq!(registry.get_vault_nfts(9), Vec::<u64>::new());
}

#[test]
fn profits_distribute_proportionally_and_aggregate_per_holder() {
    let mut registry = VaultNFTContract::new();
    registry.mint_nft(100, 7, 5000, metadata("half")).unwrap();
    registry.mint_nft(101, 7, 2500, metadata("quarter")).unwrap();
    registry.mint_nft(100, 7, 2500, metadata("quarter too")).unwrap();
    registry.mint_nft(102, 8, 10000, metadata("other vault")).unwrap();

    let distributions = registry.distribute_profits(7, 1000, 3).unwrap();
    // Holder 100 owns 5000 + 2500 basis points -> 500 + 250; holder 101
    // owns 2500 -> 250. The certificate over the other vault gets nothing.
    assert_eq!(distributions.len(), 2);
    let amount_of = |user: u32| {
        distributions.iter().find(|e| e.user == user).map(|e| e.amount).unwrap_or(0)
    };
    assert_eq!(amount_of(100), 750);
    assert_eq!(amount_of(101), 250);
    assert_eq!(amount_of(102), 0);

    assert_eq!(registry.distribute_profits(7, 0, 3), Err(VaultNFTError::InvalidAmount));
    assert_eq!(registry.distribute_profits(7, -50, 3), Err(VaultNFTError::InvalidAmount));
}

#[test]
fn tiny_profits_round_away_entirely() {
    let mut registry = VaultNFTContract::new();
    registry.mint_nft(100, 7, 1, metadata("sliver")).unwrap();
    // floor(1000 * 1 / 10000) == 0: nothing to hand out.
    let distributions = registry.distribute_profits(7, 1000, 3).unwrap();
    assert!(distributions.is_empty());
}

#[test]
fn total_ownership_sums_per_vault() {
    let mut registry = VaultNFTContract::new();
    registry.mint_nft(100, 7, 5000, metadata("a")).unwrap();
    registry.mint_nft(101, 7, 2500, metadata("b")).unwrap();
    registry.mint_nft(102, 8, 1000, metadata("c")).unwrap();
    assert_eq!(registry.get_total_ownership(7), Ok(7500));
    assert_eq!(registry.get_total_ownership(8), Ok(1000));
    assert_eq!(registry.get_total_ownership(9), Ok(0));
}
