#![allow(non_snake_case)]

use nft_registry::vr_genesis::VRGenesisNFT;

#[test]
fn UniqueNetworkNFT_minting_works() {
    let alice: u64 = 1;

    let mut nft = VRGenesisNFT::new(String::from("VR Genesis NFT"), String::from("VRGNFT"));

    // Mint a token
    let token_id = nft.mint_token(alice, 0, alice, String::from("ipfs://QmMetadata"));

    // Check that Alice is the owner
    assert_eq!(nft.owner_of(token_id), Some(alice));

    // Check the balance
    assert_eq!(nft.balance_of(alice), 1);

    // Check the token URI
    assert_eq!(nft.token_uri(token_id), Some(String::from("ipfs://QmMetadata")));
}

#[test]
fn UniqueNetworkNFT_transfer_works() {
    let alice: u64 = 1;
    let bob: u64 = 2;

    let mut nft = VRGenesisNFT::new(String::from("VR Genesis NFT"), String::from("VRGNFT"));

    // Mint a token as Alice
    let token_id = nft.mint_token(alice, 0, alice, String::from("ipfs://QmMetadata"));

    // Transfer to Bob
    assert!(nft.transfer(alice, bob, token_id));

    // Check that Bob is now the owner
    assert_eq!(nft.owner_of(token_id), Some(bob));

    // Check balances
    assert_eq!(nft.balance_of(alice), 0);
    assert_eq!(nft.balance_of(bob), 1);
}

#[test]
fn unauthorized_or_missing_transfer_changes_nothing() {
    let alice: u64 = 1;
    let bob: u64 = 2;
    let eve: u64 = 9;

    let mut nft = VRGenesisNFT::new(String::from("VR Genesis NFT"), String::from("VRGNFT"));
    let token_id = nft.mint_token(alice, 7, alice, String::from("ipfs://QmMetadata"));

    // A non-owner cannot transfer.
    assert!(!nft.transfer(eve, bob, token_id));
    // A token never minted cannot be transferred.
    assert!(!nft.transfer(alice, bob, 99));

    assert_eq!(nft.owner_of(token_id), Some(alice));
    assert_eq!(nft.balance_of(alice), 1);
    assert_eq!(nft.balance_of(bob), 0);
}

#[test]
fn metadata_records_creator_and_time() {
    let alice: u64 = 1;
    let bob: u64 = 2;

    let mut nft = VRGenesisNFT::new(String::from("n"), String::from("s"));
    // Alice mints to Bob at logical time 42.
    let token_id = nft.mint_token(alice, 42, bob, String::from("ipfs://QmX"));
    assert_eq!(token_id, 1);
    assert_eq!(nft.owner_of(1), Some(bob));
    assert_eq!(nft.token_uri(1), Some(String::from("ipfs://QmX")));
    assert_eq!(nft.name(), String::from("n"));
    assert_eq!(nft.symbol(), String::from("s"));
}
