//! The pausable fungible token: supply, balances, allowances, and the
//! owner-only operations.

use vault_core::token::{ExampleContract, USDCToken};

fn create_client(owner: u32, initial_supply: i128) -> ExampleContract {
    ExampleContract::new(
        owner,
        initial_supply,
        18,
        String::from("My Token"),
        String::from("TKN"),
    )
}

#[test]
fn initial_state() {
    let owner: u32 = 1;
    let client = create_client(owner, 1000);

    assert_eq!(client.total_supply(), 1000);
    assert_eq!(client.balance(owner), 1000);
    assert_eq!(client.symbol(), "TKN");
    assert_eq!(client.name(), "My Token");
    assert_eq!(client.decimals(), 18);
    assert!(!client.paused());
}

#[test]
fn transfer_works() {
    let owner: u32 = 1;
    let recipient: u32 = 2;
    let mut client = create_client(owner, 1000);

    client.transfer(owner, recipient, 100);
    assert_eq!(client.balance(owner), 900);
    assert_eq!(client.balance(recipient), 100);
}

#[test]
fn transfer_from_works() {
    let owner: u32 = 1;
    let spender: u32 = 2;
    let recipient: u32 = 3;
    let mut client = create_client(owner, 1000);

    client.approve(owner, spender, 200, 100);
    client.transfer_from(spender, owner, recipient, 200);
    assert_eq!(client.balance(owner), 800);
    assert_eq!(client.balance(recipient), 200);
}

#[test]
fn mint_works() {
    let owner: u32 = 1;
    let mut client = create_client(owner, 1000);

    client.mint(owner, owner, 500);
    assert_eq!(client.total_supply(), 1500);
    assert_eq!(client.balance(owner), 1500);
}

#[test]
fn burn_works() {
    let owner: u32 = 1;
    let mut client = create_client(owner, 1000);

    client.burn(owner, 200);
    assert_eq!(client.total_supply(), 800);
    assert_eq!(client.balance(owner), 800);
}

#[test]
fn supply_always_equals_the_summed_balances() {
    let owner: u32 = 1;
    let mut client = create_client(owner, 1000);
    let check = |client: &ExampleContract| {
        let sum: i128 = client.balances.iter().map(|e| e.amount).sum();
        assert_eq!(sum, client.total_supply());
    };
    check(&client);
    client.transfer(owner, 2, 333);
    check(&client);
    client.mint(owner, 3, 500);
    check(&client);
    client.burn(2, 333);
    check(&client);
    // An emptied account keeps no record behind.
    assert_eq!(client.balance(2), 0);
    assert!(client.balances.iter().all(|e| e.user != 2));
}

#[test]
fn allowances_track_spending() {
    let owner: u32 = 1;
    let spender: u32 = 2;
    let mut client = create_client(owner, 1000);
    assert_eq!(client.allowance(owner, spender), 0);
    client.approve(owner, spender, 200, 50);
    assert_eq!(client.allowance(owner, spender), 200);
    client.transfer_from(spender, owner, 3, 150);
    assert_eq!(client.allowance(owner, spender), 50);
    client.approve(owner, spender, 0, 50);
    assert_eq!(client.allowance(owner, spender), 0);
}

#[test]
fn pause_flag_is_owner_controlled() {
    let owner: u32 = 1;
    let mut client = create_client(owner, 1000);
    assert!(!client.paused());
    client.pause(owner);
    assert!(client.paused());
    client.unpause(owner);
    assert!(!client.paused());
}

#[test]
fn usdc_carries_its_own_metadata() {
    let owner: u32 = 9;
    let mut coin = USDCToken::new(owner, 1_000_000);
    assert_eq!(coin.owner(), owner);
    assert_eq!(coin.total_supply(), 1_000_000);
    assert_eq!(coin.token.decimals(), 6);
    assert_eq!(coin.token.symbol(), "USDC");
    assert_eq!(coin.token.name(), "USD Coin");
    coin.mint(owner, 2, 500);
    assert_eq!(coin.total_supply(), 1_000_500);
    assert_eq!(coin.token.balance(2), 500);
}
